//! Decoding of the JSON write request body, and the write handler itself.
//!
//! The accepted body is a JSON object with exactly the two members `name`
//! and `url`, in either order, each a JSON string, with arbitrary whitespace
//! between tokens and nothing but whitespace after the closing brace. String
//! literals may use the escapes `\"` `\\` `\/` `\b` `\f` `\n` `\r` `\t`;
//! raw control characters inside a literal are rejected, as is anything
//! else: the registry is then left untouched and the caller is told so.

use crate::package::{Package, PackageView};
use crate::registry::{spec_upsert, Registry};
use vstd::prelude::*;

verus! {

/// JSON inter-token whitespace.
pub open spec fn is_ws(c: char) -> bool {
    c == ' ' || c == '\t' || c == '\n' || c == '\r'
}

/// The first position at or after `i` that does not hold whitespace.
pub open spec fn skip_ws(s: Seq<char>, i: int) -> int
    decreases s.len() - i,
{
    if 0 <= i < s.len() && is_ws(s[i]) {
        skip_ws(s, i + 1)
    } else {
        i
    }
}

/// The character denoted by the escape `\c`, if `\c` is an accepted escape.
pub open spec fn unesc(c: char) -> Option<char> {
    if c == '"' { Some('"') }
    else if c == '\\' { Some('\\') }
    else if c == '/' { Some('/') }
    else if c == 'n' { Some('\n') }
    else if c == 'r' { Some('\r') }
    else if c == 't' { Some('\t') }
    else if c == 'b' { Some('\u{8}') }
    else if c == 'f' { Some('\u{c}') }
    else { None }
}

/// Parses the rest of a string literal, `i` standing just after the opening
/// quote: the decoded value and the position after the closing quote.
pub open spec fn str_body(s: Seq<char>, i: int) -> Option<(Seq<char>, int)>
    decreases s.len() - i,
{
    if !(0 <= i < s.len()) {
        None
    } else if s[i] == '"' {
        Some((Seq::empty(), i + 1))
    } else if s[i] == '\\' {
        if i + 1 < s.len() {
            match unesc(s[i + 1]) {
                Some(c) => match str_body(s, i + 2) {
                    Some(r) => Some((seq![c] + r.0, r.1)),
                    None => None,
                },
                None => None,
            }
        } else {
            None
        }
    } else if (s[i] as u32) < 0x20 {
        None
    } else {
        match str_body(s, i + 1) {
            Some(r) => Some((seq![s[i]] + r.0, r.1)),
            None => None,
        }
    }
}

/// Parses a string literal starting at `i`.
pub open spec fn parse_string(s: Seq<char>, i: int) -> Option<(Seq<char>, int)> {
    if 0 <= i < s.len() && s[i] == '"' {
        str_body(s, i + 1)
    } else {
        None
    }
}

/// Parses one `"key" : "value"` member starting at `i`.
pub open spec fn parse_member(s: Seq<char>, i: int) -> Option<((Seq<char>, Seq<char>), int)> {
    match parse_string(s, i) {
        Some((key, j)) => {
            let j1 = skip_ws(s, j);
            if j1 < s.len() && s[j1] == ':' {
                match parse_string(s, skip_ws(s, j1 + 1)) {
                    Some((value, k)) => Some(((key, value), k)),
                    None => None,
                }
            } else {
                None
            }
        },
        None => None,
    }
}

/// Turns the two decoded members into a package, if their keys are exactly
/// `name` and `url`, in either order.
pub open spec fn members_to_package(
    m1: (Seq<char>, Seq<char>),
    m2: (Seq<char>, Seq<char>),
) -> Option<PackageView> {
    if m1.0 == "name"@ && m2.0 == "url"@ {
        Some(PackageView { name: m1.1, url: m2.1 })
    } else if m1.0 == "url"@ && m2.0 == "name"@ {
        Some(PackageView { name: m2.1, url: m1.1 })
    } else {
        None
    }
}

/// The package denoted by the request body `s`, if `s` is an accepted body.
pub open spec fn spec_parse_package(s: Seq<char>) -> Option<PackageView> {
    let i0 = skip_ws(s, 0);
    if i0 < s.len() && s[i0] == '{' {
        match parse_member(s, skip_ws(s, i0 + 1)) {
            Some((m1, j)) => {
                let j1 = skip_ws(s, j);
                if j1 < s.len() && s[j1] == ',' {
                    match parse_member(s, skip_ws(s, j1 + 1)) {
                        Some((m2, k)) => {
                            let k1 = skip_ws(s, k);
                            if k1 < s.len() && s[k1] == '}' && skip_ws(s, k1 + 1) == s.len() {
                                members_to_package(m1, m2)
                            } else {
                                None
                            }
                        },
                        None => None,
                    }
                } else {
                    None
                }
            },
            None => None,
        }
    } else {
        None
    }
}

/// Prefixing the decoded value commutes with concatenation.
spec fn opt_prepend(pre: Seq<char>, o: Option<(Seq<char>, int)>) -> Option<(Seq<char>, int)> {
    match o {
        Some(r) => Some((pre + r.0, r.1)),
        None => None,
    }
}

proof fn lemma_opt_prepend_chain(a: Seq<char>, b: Seq<char>, o: Option<(Seq<char>, int)>)
    ensures
        opt_prepend(a, opt_prepend(b, o)) == opt_prepend(a + b, o),
{
    match o {
        Some(r) => {
            assert(a + (b + r.0) =~= (a + b) + r.0);
        },
        None => {},
    }
}

/// The executable counterpart of `skip_ws`.
pub(crate) fn skip_ws_exec(v: &Vec<char>, i: usize) -> (r: usize)
    requires
        i <= v@.len(),
    ensures
        r == skip_ws(v@, i as int),
        i <= r <= v@.len(),
{
    let n = v.len();
    let mut j: usize = i;
    while j < n && (v[j] == ' ' || v[j] == '\t' || v[j] == '\n' || v[j] == '\r')
        invariant
            n == v@.len(),
            i <= j <= n,
            skip_ws(v@, i as int) == skip_ws(v@, j as int),
        decreases n - j,
    {
        proof {
            assert(is_ws(v@[j as int]));
        }
        j = j + 1;
    }
    proof {
        if j < n {
            assert(!is_ws(v@[j as int]));
        }
        assert(skip_ws(v@, j as int) == j);
    }
    j
}

/// The executable counterpart of `unesc`.
fn unesc_exec(c: char) -> (r: Option<char>)
    ensures
        r == unesc(c),
{
    if c == '"' { Some('"') }
    else if c == '\\' { Some('\\') }
    else if c == '/' { Some('/') }
    else if c == 'n' { Some('\n') }
    else if c == 'r' { Some('\r') }
    else if c == 't' { Some('\t') }
    else if c == 'b' { Some('\u{8}') }
    else if c == 'f' { Some('\u{c}') }
    else { None }
}

/// The executable counterpart of `parse_string`: decodes the string literal
/// starting at `i`.
fn parse_string_exec(v: &Vec<char>, i: usize) -> (r: Option<(String, usize)>)
    requires
        i <= v@.len(),
    ensures
        match r {
            Some(t) => {
                &&& parse_string(v@, i as int) == Some((t.0@, t.1 as int))
                &&& i < t.1 <= v@.len()
            },
            None => parse_string(v@, i as int) is None,
        },
{
    let n = v.len();
    if i >= n || v[i] != '"' {
        return None;
    }
    let mut out = String::new();
    let mut j: usize = i + 1;
    loop
        invariant
            n == v@.len(),
            i < n,
            v@[i as int] == '"',
            i + 1 <= j <= n,
            str_body(v@, i as int + 1) == opt_prepend(out@, str_body(v@, j as int)),
        decreases n - j,
    {
        if j >= n {
            return None;
        }
        let c = v[j];
        if c == '"' {
            proof {
                assert(str_body(v@, j as int) == Some((Seq::<char>::empty(), j + 1)));
                assert(out@ + Seq::<char>::empty() =~= out@);
            }
            return Some((out, j + 1));
        } else if c == '\\' {
            if j + 1 >= n {
                return None;
            }
            match unesc_exec(v[j + 1]) {
                Some(u) => {
                    let ghost pre = out@;
                    out.push(u);
                    proof {
                        assert(str_body(v@, j as int)
                            == opt_prepend(seq![u], str_body(v@, j + 2)));
                        lemma_opt_prepend_chain(pre, seq![u], str_body(v@, j + 2));
                        assert(pre + seq![u] =~= out@);
                    }
                    j = j + 2;
                },
                None => {
                    return None;
                },
            }
        } else if (c as u32) < 0x20 {
            return None;
        } else {
            let ghost pre = out@;
            out.push(c);
            proof {
                assert(str_body(v@, j as int)
                    == opt_prepend(seq![c], str_body(v@, j + 1)));
                lemma_opt_prepend_chain(pre, seq![c], str_body(v@, j + 1));
                assert(pre + seq![c] =~= out@);
            }
            j = j + 1;
        }
    }
}

/// The executable counterpart of `parse_member`.
fn parse_member_exec(v: &Vec<char>, i: usize) -> (r: Option<((String, String), usize)>)
    requires
        i <= v@.len(),
    ensures
        match r {
            Some(t) => {
                &&& parse_member(v@, i as int) == Some(((t.0.0@, t.0.1@), t.1 as int))
                &&& t.1 <= v@.len()
            },
            None => parse_member(v@, i as int) is None,
        },
{
    match parse_string_exec(v, i) {
        Some((key, j)) => {
            let j1 = skip_ws_exec(v, j);
            if j1 < v.len() && v[j1] == ':' {
                let j2 = skip_ws_exec(v, j1 + 1);
                match parse_string_exec(v, j2) {
                    Some((value, k)) => Some(((key, value), k)),
                    None => None,
                }
            } else {
                None
            }
        },
        None => None,
    }
}

/// Decodes a request body: returns the package it denotes, or `None` for
/// every body outside the accepted shape.
pub fn parse_package(body: &str) -> (r: Option<Package>)
    ensures
        match r {
            Some(p) => spec_parse_package(body@) == Some(p@),
            None => spec_parse_package(body@) is None,
        },
{
    let v = crate::text::to_chars(body);
    let i0 = skip_ws_exec(&v, 0);
    if !(i0 < v.len()) || v[i0] != '{' {
        return None;
    }
    let i1 = skip_ws_exec(&v, i0 + 1);
    match parse_member_exec(&v, i1) {
        Some((m1, j)) => {
            let j1 = skip_ws_exec(&v, j);
            if j1 < v.len() && v[j1] == ',' {
                let j2 = skip_ws_exec(&v, j1 + 1);
                match parse_member_exec(&v, j2) {
                    Some((m2, k)) => {
                        let k1 = skip_ws_exec(&v, k);
                        if k1 < v.len() && v[k1] == '}' && skip_ws_exec(&v, k1 + 1) == v.len() {
                            let (key1, val1) = m1;
                            let (key2, val2) = m2;
                            if crate::text::str_eq(key1.as_str(), "name")
                                && crate::text::str_eq(key2.as_str(), "url") {
                                Some(Package { name: val1, url: val2 })
                            } else if crate::text::str_eq(key1.as_str(), "url")
                                && crate::text::str_eq(key2.as_str(), "name") {
                                Some(Package { name: val2, url: val1 })
                            } else {
                                None
                            }
                        } else {
                            None
                        }
                    },
                    None => None,
                }
            } else {
                None
            }
        },
        None => None,
    }
}

/// The one way a write request fails: its body is not an accepted package
/// object.
#[derive(Debug, PartialEq, Eq, Structural)]
pub enum DecodeError {
    Malformed,
}

/// The JSON write handler: decodes the body and upserts the package it
/// denotes. A malformed body is reported to the caller and leaves the
/// registry untouched.
pub fn packages_post(reg: &mut Registry, body: &str) -> (r: Result<(), DecodeError>)
    ensures
        old(reg).wf() ==> final(reg).wf(),
        match spec_parse_package(body@) {
            Some(pv) => {
                &&& r == Ok::<(), DecodeError>(())
                &&& final(reg)@ == spec_upsert(old(reg)@, pv)
            },
            None => {
                &&& r == Err::<(), DecodeError>(DecodeError::Malformed)
                &&& final(reg)@ == old(reg)@
            },
        },
{
    match parse_package(body) {
        Some(pkg) => {
            reg.upsert(pkg);
            Ok(())
        },
        None => Err(DecodeError::Malformed),
    }
}

} // verus!
