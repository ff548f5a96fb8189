//! The JSON listing: the registry serialized as an array of objects with
//! `name` and `url` string fields. String values are escaped as JSON asks:
//! quote and backslash always, the common control characters by their short
//! escapes, and any other control character as a `\u00XX` sequence.

use crate::package::{views_of, Package, PackageView};
use crate::registry::Registry;
use vstd::prelude::*;
use vstd::string::StrSliceExecFns;
use vstd::string::StringExecFns;

verus! {

broadcast use crate::package::lemma_views_of_index;

/// The lower-case hexadecimal digit for `n`.
pub open spec fn hex_digit(n: u32) -> char {
    if n == 0 { '0' } else if n == 1 { '1' } else if n == 2 { '2' } else if n == 3 { '3' }
    else if n == 4 { '4' } else if n == 5 { '5' } else if n == 6 { '6' } else if n == 7 { '7' }
    else if n == 8 { '8' } else if n == 9 { '9' } else if n == 10 { 'a' } else if n == 11 { 'b' }
    else if n == 12 { 'c' } else if n == 13 { 'd' } else if n == 14 { 'e' } else { 'f' }
}

/// How one character appears inside a JSON string literal.
pub open spec fn esc_char(c: char) -> Seq<char> {
    if c == '"' { seq!['\\', '"'] }
    else if c == '\\' { seq!['\\', '\\'] }
    else if c == '\n' { seq!['\\', 'n'] }
    else if c == '\r' { seq!['\\', 'r'] }
    else if c == '\t' { seq!['\\', 't'] }
    else if c == '\u{8}' { seq!['\\', 'b'] }
    else if c == '\u{c}' { seq!['\\', 'f'] }
    else if (c as u32) < 0x20 {
        seq!['\\', 'u', '0', '0', hex_digit((c as u32) / 16), hex_digit((c as u32) % 16)]
    } else {
        seq![c]
    }
}

/// The JSON escaping of a whole string value.
pub open spec fn escape(s: Seq<char>) -> Seq<char>
    decreases s.len(),
{
    if s.len() == 0 {
        Seq::empty()
    } else {
        escape(s.drop_last()) + esc_char(s.last())
    }
}

/// The JSON object serialized for one package.
pub open spec fn obj_of(p: PackageView) -> Seq<char> {
    "{\"name\":\""@ + escape(p.name) + "\",\"url\":\""@ + escape(p.url) + "\"}"@
}

/// The comma-separated object list serialized for `s`, in order.
pub open spec fn json_items(s: Seq<PackageView>) -> Seq<char>
    decreases s.len(),
{
    if s.len() == 0 {
        Seq::empty()
    } else if s.len() == 1 {
        obj_of(s[0])
    } else {
        json_items(s.drop_last()) + ","@ + obj_of(s.last())
    }
}

/// The complete JSON array serialized for the records `s`. An empty registry
/// yields the empty array.
pub open spec fn json_of(s: Seq<PackageView>) -> Seq<char> {
    "["@ + json_items(s) + "]"@
}

/// The executable counterpart of `hex_digit`.
fn hex_char(n: u32) -> (c: char)
    requires
        n < 16,
    ensures
        c == hex_digit(n),
{
    if n == 0 { '0' } else if n == 1 { '1' } else if n == 2 { '2' } else if n == 3 { '3' }
    else if n == 4 { '4' } else if n == 5 { '5' } else if n == 6 { '6' } else if n == 7 { '7' }
    else if n == 8 { '8' } else if n == 9 { '9' } else if n == 10 { 'a' } else if n == 11 { 'b' }
    else if n == 12 { 'c' } else if n == 13 { 'd' } else if n == 14 { 'e' } else { 'f' }
}

/// Appends the JSON escaping of `s` to `out`.
fn escape_append(out: &mut String, s: &str)
    ensures
        final(out)@ == old(out)@ + escape(s@),
{
    let ghost base = old(out)@;
    let n = s.unicode_len();
    let mut i: usize = 0;
    while i < n
        invariant
            n == s@.len(),
            i <= n,
            out@ == base + escape(s@.take(i as int)),
        decreases n - i,
    {
        let c = s.get_char(i);
        if c == '"' {
            out.append("\\\"");
        } else if c == '\\' {
            out.append("\\\\");
        } else if c == '\n' {
            out.append("\\n");
        } else if c == '\r' {
            out.append("\\r");
        } else if c == '\t' {
            out.append("\\t");
        } else if c == '\u{8}' {
            out.append("\\b");
        } else if c == '\u{c}' {
            out.append("\\f");
        } else if (c as u32) < 0x20 {
            out.append("\\u00");
            out.push(hex_char((c as u32) / 16));
            out.push(hex_char((c as u32) % 16));
        } else {
            out.push(c);
        }
        proof {
            assert(s@.take(i + 1).drop_last() =~= s@.take(i as int));
            assert(s@.take(i + 1).last() == s@[i as int]);
            assert(escape(s@.take(i + 1)) == escape(s@.take(i as int)) + esc_char(s@[i as int]));
            if c == '"' { assert("\\\""@ =~= esc_char(c)) by { reveal_strlit("\\\""); } }
            else if c == '\\' { assert("\\\\"@ =~= esc_char(c)) by { reveal_strlit("\\\\"); } }
            else if c == '\n' { assert("\\n"@ =~= esc_char(c)) by { reveal_strlit("\\n"); } }
            else if c == '\r' { assert("\\r"@ =~= esc_char(c)) by { reveal_strlit("\\r"); } }
            else if c == '\t' { assert("\\t"@ =~= esc_char(c)) by { reveal_strlit("\\t"); } }
            else if c == '\u{8}' { assert("\\b"@ =~= esc_char(c)) by { reveal_strlit("\\b"); } }
            else if c == '\u{c}' { assert("\\f"@ =~= esc_char(c)) by { reveal_strlit("\\f"); } }
            else if (c as u32) < 0x20 {
                reveal_strlit("\\u00");
                assert("\\u00"@ + seq![hex_digit((c as u32) / 16), hex_digit((c as u32) % 16)]
                    =~= esc_char(c));
            } else {
                assert(seq![c] =~= esc_char(c));
            }
            assert(out@ =~= base + escape(s@.take(i + 1)));
        }
        i = i + 1;
    }
    proof {
        assert(s@.take(n as int) =~= s@);
    }
}

/// Serializes the packages `pkgs` as a JSON array, in their order.
pub fn render_json(pkgs: &Vec<Package>) -> (r: String)
    ensures
        r@ == json_of(views_of(pkgs@)),
{
    let ghost v = views_of(pkgs@);
    let mut out = String::from_str("[");
    let n = pkgs.len();
    let mut i: usize = 0;
    while i < n
        invariant
            n == pkgs@.len(),
            v == views_of(pkgs@),
            i <= n,
            out@ == "["@ + json_items(v.take(i as int)),
        decreases n - i,
    {
        if i > 0 {
            out.append(",");
        }
        out.append("{\"name\":\"");
        escape_append(&mut out, pkgs[i].name.as_str());
        out.append("\",\"url\":\"");
        escape_append(&mut out, pkgs[i].url.as_str());
        out.append("\"}");
        proof {
            assert(v.take(i + 1).drop_last() =~= v.take(i as int));
            assert(v.take(i + 1).last() == v[i as int]);
            if i == 0 {
                assert(json_items(v.take(1)) == obj_of(v[0]));
            } else {
                assert(json_items(v.take(i + 1))
                    == json_items(v.take(i as int)) + ","@ + obj_of(v[i as int]));
            }
            assert(out@ =~= "["@ + json_items(v.take(i + 1)));
        }
        i = i + 1;
    }
    proof {
        assert(v.take(n as int) =~= v);
    }
    out.append("]");
    proof {
        assert(out@ =~= json_of(v));
    }
    out
}

/// The JSON read handler: serializes a snapshot of the registry. An empty
/// registry yields `[]`.
pub fn packages_get(reg: &Registry) -> (r: String)
    ensures
        r@ == json_of(reg@),
{
    let pkgs = reg.get_all();
    render_json(&pkgs)
}

} // verus!
