use mlua::{Function, Lua};
use thermostatd::hvac::HvacRequest;

/// The basic heat scenario: the probe reads 20.0 against a script
/// threshold of 22, and the script's verdict becomes the heat call.
#[test]
fn script_verdict_drives_heat_call() {
    let lua = Lua::new();
    lua.load("function evaluate(s) if s.probes.primary.temperature < 22 then return 'heat' end end")
        .exec()
        .unwrap();
    let evaluate: Function = lua.globals().get("evaluate").unwrap();

    let state = lua.create_table().unwrap();
    let probes = lua.create_table().unwrap();
    let primary = lua.create_table().unwrap();
    primary.set("temperature", 20.0).unwrap();
    probes.set("primary", primary).unwrap();
    state.set("probes", probes).unwrap();

    let verdict: Option<String> = evaluate.call(state).unwrap();
    assert_eq!(HvacRequest::from_string(verdict.unwrap()), Some(HvacRequest::Heat));
}

/// A warm reading makes the same script return nothing, which leaves the
/// last call in place.
#[test]
fn script_verdict_nil_above_threshold() {
    let lua = Lua::new();
    lua.load("function evaluate(s) if s.probes.primary.temperature < 22 then return 'heat' end end")
        .exec()
        .unwrap();
    let evaluate: Function = lua.globals().get("evaluate").unwrap();

    let state = lua.create_table().unwrap();
    let probes = lua.create_table().unwrap();
    let primary = lua.create_table().unwrap();
    primary.set("temperature", 23.5).unwrap();
    probes.set("primary", primary).unwrap();
    state.set("probes", probes).unwrap();

    let verdict: Option<String> = evaluate.call(state).unwrap();
    assert_eq!(verdict, None);
}

/// A script with a syntax error fails to load, which is what keeps the
/// previous interpreter serving.
#[test]
fn syntax_error_fails_the_load_step() {
    let lua = Lua::new();
    assert!(lua.load("function evaluate(").exec().is_err());
}
