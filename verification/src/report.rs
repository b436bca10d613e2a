//! The JSON status payloads published on the error topics.
//!
//! Every failure report is an object with the keys, in order, `error`,
//! optionally `error_at`, and `success`; success is `{"success":true}`.

use vstd::prelude::*;

use crate::json::{push_escaped, spec_escape};

verus! {

/// The bytes of `{"success":true}`.
pub open spec fn spec_success_json() -> Seq<u8> {
    seq![
        '{' as u8,
        '"' as u8,
        's' as u8,
        'u' as u8,
        'c' as u8,
        'c' as u8,
        'e' as u8,
        's' as u8,
        's' as u8,
        '"' as u8,
        ':' as u8,
        't' as u8,
        'r' as u8,
        'u' as u8,
        'e' as u8,
        '}' as u8,
    ]
}

/// The bytes of `{"error":"`.
pub open spec fn spec_error_open() -> Seq<u8> {
    seq![
        '{' as u8,
        '"' as u8,
        'e' as u8,
        'r' as u8,
        'r' as u8,
        'o' as u8,
        'r' as u8,
        '"' as u8,
        ':' as u8,
        '"' as u8,
    ]
}

/// The bytes of `","error_at":"`.
pub open spec fn spec_error_at_mid() -> Seq<u8> {
    seq![
        '"' as u8,
        ',' as u8,
        '"' as u8,
        'e' as u8,
        'r' as u8,
        'r' as u8,
        'o' as u8,
        'r' as u8,
        '_' as u8,
        'a' as u8,
        't' as u8,
        '"' as u8,
        ':' as u8,
        '"' as u8,
    ]
}

/// The bytes of `","success":false}`.
pub open spec fn spec_error_close() -> Seq<u8> {
    seq![
        '"' as u8,
        ',' as u8,
        '"' as u8,
        's' as u8,
        'u' as u8,
        'c' as u8,
        'c' as u8,
        'e' as u8,
        's' as u8,
        's' as u8,
        '"' as u8,
        ':' as u8,
        'f' as u8,
        'a' as u8,
        'l' as u8,
        's' as u8,
        'e' as u8,
        '}' as u8,
    ]
}

/// The failure report for an error text and an optional failing step.
pub open spec fn spec_error_json(error_at: Option<Seq<u8>>, error: Seq<u8>) -> Seq<u8> {
    match error_at {
        None => spec_error_open() + spec_escape(error) + spec_error_close(),
        Some(at) => spec_error_open() + spec_escape(error) + spec_error_at_mid() + spec_escape(at)
            + spec_error_close(),
    }
}

/// Write the success report.
pub fn success_json() -> (r: Vec<u8>)
    ensures
        r@ == spec_success_json(),
{
    let mut v: Vec<u8> = Vec::new();
    v.push('{' as u8);
    v.push('"' as u8);
    v.push('s' as u8);
    v.push('u' as u8);
    v.push('c' as u8);
    v.push('c' as u8);
    v.push('e' as u8);
    v.push('s' as u8);
    v.push('s' as u8);
    v.push('"' as u8);
    v.push(':' as u8);
    v.push('t' as u8);
    v.push('r' as u8);
    v.push('u' as u8);
    v.push('e' as u8);
    v.push('}' as u8);
    proof {
        assert(v@ =~= spec_success_json());
    }
    v
}

/// Write a failure report, escaping the texts.
pub fn error_json(error_at: Option<&[u8]>, error: &[u8]) -> (r: Vec<u8>)
    ensures
        r@ == spec_error_json(
            match error_at {
                Some(at) => Some(at@),
                None => None,
            },
            error@,
        ),
{
    let mut v: Vec<u8> = Vec::new();
    v.push('{' as u8);
    v.push('"' as u8);
    v.push('e' as u8);
    v.push('r' as u8);
    v.push('r' as u8);
    v.push('o' as u8);
    v.push('r' as u8);
    v.push('"' as u8);
    v.push(':' as u8);
    v.push('"' as u8);
    proof {
        assert(v@ =~= spec_error_open());
    }
    push_escaped(error, &mut v);
    match error_at {
        None => {},
        Some(at) => {
            let mut mid: Vec<u8> = Vec::new();
            mid.push('"' as u8);
            mid.push(',' as u8);
            mid.push('"' as u8);
            mid.push('e' as u8);
            mid.push('r' as u8);
            mid.push('r' as u8);
            mid.push('o' as u8);
            mid.push('r' as u8);
            mid.push('_' as u8);
            mid.push('a' as u8);
            mid.push('t' as u8);
            mid.push('"' as u8);
            mid.push(':' as u8);
            mid.push('"' as u8);
            proof {
                assert(mid@ =~= spec_error_at_mid());
            }
            v.append(&mut mid);
            push_escaped(at, &mut v);
        },
    }
    let mut close: Vec<u8> = Vec::new();
    close.push('"' as u8);
    close.push(',' as u8);
    close.push('"' as u8);
    close.push('s' as u8);
    close.push('u' as u8);
    close.push('c' as u8);
    close.push('c' as u8);
    close.push('e' as u8);
    close.push('s' as u8);
    close.push('s' as u8);
    close.push('"' as u8);
    close.push(':' as u8);
    close.push('f' as u8);
    close.push('a' as u8);
    close.push('l' as u8);
    close.push('s' as u8);
    close.push('e' as u8);
    close.push('}' as u8);
    proof {
        assert(close@ =~= spec_error_close());
    }
    v.append(&mut close);
    v
}

} // verus!
