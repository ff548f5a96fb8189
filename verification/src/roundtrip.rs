//! The round trip between the serializer and the body decoder: a package
//! serialized as a JSON object decodes back to itself.
//!
//! The one exception is a control character outside the short escapes: the
//! serializer writes it as a `\u00XX` sequence, which the decoder does not
//! accept. The law is therefore stated for strings free of such characters.

use crate::json::{esc_char, escape, json_items, json_of, obj_of};
use crate::package::PackageView;
use crate::parse::{parse_member, parse_string, skip_ws, spec_parse_package, str_body, unesc};
use crate::registry::spec_upsert;
use vstd::prelude::*;

verus! {

/// A character the serializer never writes as a `\u00XX` sequence.
pub open spec fn plain_char(c: char) -> bool {
    ((c as u32) < 0x20) ==> (c == '\n' || c == '\r' || c == '\t' || c == '\u{8}' || c == '\u{c}')
}

/// A string the serializer escapes only by the short escapes.
pub open spec fn plain(s: Seq<char>) -> bool {
    forall|i: int| 0 <= i < s.len() ==> plain_char(s[i])
}

/// `escape` decomposes from the front as well.
proof fn lemma_escape_front(s: Seq<char>)
    requires
        s.len() > 0,
    ensures
        escape(s) == esc_char(s[0]) + escape(s.drop_first()),
    decreases s.len(),
{
    if s.len() == 1 {
        assert(s.drop_last() =~= Seq::<char>::empty());
        assert(s.drop_first() =~= Seq::<char>::empty());
        assert(escape(s) =~= esc_char(s[0]) + escape(s.drop_first()));
    } else {
        let d = s.drop_last();
        lemma_escape_front(d);
        assert(d[0] == s[0]);
        assert(s.drop_first().drop_last() =~= d.drop_first());
        assert(s.drop_first().last() == s.last());
        assert(escape(s.drop_first())
            == escape(s.drop_first().drop_last()) + esc_char(s.drop_first().last()));
        assert(escape(s) == escape(d) + esc_char(s.last()));
        assert((esc_char(s[0]) + escape(d.drop_first())) + esc_char(s.last())
            =~= esc_char(s[0]) + (escape(d.drop_first()) + esc_char(s.last())));
    }
}

/// Where `t` holds the escaping of `s` followed by a closing quote at `i`,
/// the string-literal decoder reads back exactly `s` and stops just past
/// that quote.
proof fn lemma_str_body_escape(t: Seq<char>, i: int, s: Seq<char>)
    requires
        plain(s),
        0 <= i,
        i + escape(s).len() + 1 <= t.len(),
        forall|k: int| 0 <= k < escape(s).len() ==> t[i + k] == escape(s)[k],
        t[i + escape(s).len()] == '"',
    ensures
        str_body(t, i) == Some((s, i + escape(s).len() + 1)),
    decreases s.len(),
{
    if s.len() == 0 {
        assert(escape(s).len() == 0);
        assert(t[i] == '"');
        assert(str_body(t, i) == Some((Seq::<char>::empty(), i + 1)));
        assert(s =~= Seq::<char>::empty());
    } else {
        lemma_escape_front(s);
        let c = s[0];
        let e0 = esc_char(c);
        let s1 = s.drop_first();
        let ghost l0 = e0.len() as int;
        assert(escape(s) == e0 + escape(s1));
        assert(escape(s).len() == l0 + escape(s1).len());
        assert(forall|k: int| 0 <= k < l0 ==> t[i + k] == e0[k]) by {
            assert(forall|k: int| 0 <= k < l0 ==> escape(s)[k] == e0[k]);
        }
        assert(plain(s1) && plain_char(c)) by {
            assert(forall|k: int| 0 <= k < s1.len() ==> s1[k] == s[k + 1]);
        }
        assert(forall|k: int| 0 <= k < escape(s1).len()
            ==> t[i + l0 + k] == escape(s1)[k]) by {
            assert(forall|k: int| 0 <= k < escape(s1).len()
                ==> escape(s)[l0 + k] == escape(s1)[k]);
            assert forall|k: int| 0 <= k < escape(s1).len() implies
                t[i + l0 + k] == #[trigger] escape(s1)[k] by {
                assert(t[i + (l0 + k)] == escape(s)[l0 + k]);
            }
        }
        assert(t[i + l0 + escape(s1).len()] == '"');
        lemma_str_body_escape(t, i + l0, s1);
        assert(str_body(t, i + l0) == Some((s1, i + escape(s).len() + 1)));
        assert(t[i + 0] == e0[0]);
        if c == '"' || c == '\\' || c == '\n' || c == '\r' || c == '\t' || c == '\u{8}'
            || c == '\u{c}' {
            assert(l0 == 2);
            assert(t[i + 1] == e0[1]);
            assert(t[i] == '\\' && unesc(t[i + 1]) == Some(c));
            assert(str_body(t, i)
                == Some((seq![c] + s1, i + escape(s).len() + 1)));
        } else {
            assert((c as u32) >= 0x20);
            assert(l0 == 1);
            assert(t[i] == c);
            assert(str_body(t, i)
                == Some((seq![c] + s1, i + escape(s).len() + 1)));
        }
        assert(seq![c] + s1 =~= s);
    }
}

/// The round trip itself: the JSON object written for a package decodes
/// back to exactly that package. (Stated for packages free of the rare
/// control characters that are written as `\u00XX`.)
#[verifier::rlimit(50)]
pub proof fn lemma_object_round_trip(p: PackageView)
    requires
        plain(p.name),
        plain(p.url),
    ensures
        spec_parse_package(obj_of(p)) == Some(p),
{
    reveal_strlit("{\"name\":\"");
    reveal_strlit("\",\"url\":\"");
    reveal_strlit("\"}");
    reveal_strlit("name");
    reveal_strlit("url");
    let t = obj_of(p);
    let l1 = "{\"name\":\""@;
    let e1 = escape(p.name);
    let l2 = "\",\"url\":\""@;
    let e2 = escape(p.url);
    let l3 = "\"}"@;
    let n1: int = e1.len() as int;
    let n2: int = e2.len() as int;
    assert(t == l1 + e1 + l2 + e2 + l3);
    assert(l1.len() == 9 && l2.len() == 9 && l3.len() == 2);
    assert(t.len() == 20 + n1 + n2);
    assert(forall|k: int| 0 <= k < 9 ==> t[k] == l1[k]);
    assert(forall|k: int| 0 <= k < n1 ==> t[9 + k] == e1[k]);
    assert(forall|k: int| 0 <= k < 9 ==> t[9 + n1 + k] == l2[k]);
    assert(forall|k: int| 0 <= k < n2 ==> t[18 + n1 + k] == e2[k]);
    assert(forall|k: int| 0 <= k < 2 ==> t[18 + n1 + n2 + k] == l3[k]);

    // The leading brace and the key `name`.
    assert(t[0] == '{' && t[1] == '"' && t[2] == 'n' && t[3] == 'a' && t[4] == 'm'
        && t[5] == 'e' && t[6] == '"' && t[7] == ':' && t[8] == '"');
    assert(skip_ws(t, 0) == 0);
    assert(skip_ws(t, 1) == 1);
    assert(str_body(t, 6) == Some((Seq::<char>::empty(), 7int)));
    assert(str_body(t, 5) == Some((seq!['e'], 7int))) by {
        assert(seq!['e'] + Seq::<char>::empty() =~= seq!['e']);
    }
    assert(str_body(t, 4) == Some((seq!['m', 'e'], 7int))) by {
        assert(seq!['m'] + seq!['e'] =~= seq!['m', 'e']);
    }
    assert(str_body(t, 3) == Some((seq!['a', 'm', 'e'], 7int))) by {
        assert(seq!['a'] + seq!['m', 'e'] =~= seq!['a', 'm', 'e']);
    }
    assert(str_body(t, 2) == Some((seq!['n', 'a', 'm', 'e'], 7int))) by {
        assert(seq!['n'] + seq!['a', 'm', 'e'] =~= seq!['n', 'a', 'm', 'e']);
    }
    assert(seq!['n', 'a', 'm', 'e'] =~= "name"@);
    assert(parse_string(t, 1) == Some(("name"@, 7int)));

    // The name value.
    assert(skip_ws(t, 7) == 7 && t[7] == ':');
    assert(skip_ws(t, 8) == 8 && t[8] == '"');
    assert(t[9 + n1] == l2[0] && l2[0] == '"');
    lemma_str_body_escape(t, 9, p.name);
    assert(str_body(t, 9) == Some((p.name, 10 + n1)));
    assert(parse_string(t, 8) == Some((p.name, 10 + n1)));
    assert(parse_member(t, 1) == Some((("name"@, p.name), 10 + n1)));

    // The comma and the key `url`.
    let a: int = 10 + n1;
    assert(t[a] == l2[1] && t[a + 1] == l2[2] && t[a + 2] == l2[3] && t[a + 3] == l2[4]
        && t[a + 4] == l2[5] && t[a + 5] == l2[6] && t[a + 6] == l2[7] && t[a + 7] == l2[8]);
    assert(t[a] == ',' && t[a + 1] == '"' && t[a + 2] == 'u' && t[a + 3] == 'r'
        && t[a + 4] == 'l' && t[a + 5] == '"' && t[a + 6] == ':' && t[a + 7] == '"');
    assert(skip_ws(t, a) == a);
    assert(skip_ws(t, a + 1) == a + 1);
    assert(str_body(t, a + 5) == Some((Seq::<char>::empty(), a + 6)));
    assert(str_body(t, a + 4) == Some((seq!['l'], a + 6))) by {
        assert(seq!['l'] + Seq::<char>::empty() =~= seq!['l']);
    }
    assert(str_body(t, a + 3) == Some((seq!['r', 'l'], a + 6))) by {
        assert(seq!['r'] + seq!['l'] =~= seq!['r', 'l']);
    }
    assert(str_body(t, a + 2) == Some((seq!['u', 'r', 'l'], a + 6))) by {
        assert(seq!['u'] + seq!['r', 'l'] =~= seq!['u', 'r', 'l']);
    }
    assert(seq!['u', 'r', 'l'] =~= "url"@);
    assert(parse_string(t, a + 1) == Some(("url"@, a + 6)));

    // The url value.
    assert(skip_ws(t, a + 6) == a + 6);
    assert(skip_ws(t, a + 7) == a + 7);
    assert(a + 8 == 18 + n1);
    assert(t[18 + n1 + n2] == l3[0] && l3[0] == '"');
    lemma_str_body_escape(t, 18 + n1, p.url);
    assert(str_body(t, a + 8) == Some((p.url, 19 + n1 + n2)));
    assert(parse_string(t, a + 7) == Some((p.url, 19 + n1 + n2)));
    assert(parse_member(t, a + 1) == Some((("url"@, p.url), 19 + n1 + n2)));

    // The closing brace and the end of the body.
    let b: int = 19 + n1 + n2;
    assert(t[b] == l3[1] && l3[1] == '}');
    assert(skip_ws(t, b) == b);
    assert(skip_ws(t, b + 1) == b + 1 && b + 1 == t.len());
    assert("name"@ != "url"@) by {
        assert("name"@.len() != "url"@.len());
    }
    assert(spec_parse_package(t) == Some(PackageView { name: p.name, url: p.url }));
    assert(PackageView { name: p.name, url: p.url } == p);
}

/// Posting the serialized object of a package to an empty registry leaves
/// exactly that record, and the listing then holds exactly that object.
pub proof fn lemma_post_then_list(p: PackageView)
    requires
        plain(p.name),
        plain(p.url),
    ensures
        spec_parse_package(obj_of(p)) == Some(p),
        json_of(spec_upsert(Seq::<PackageView>::empty(), p)) == "["@ + obj_of(p) + "]"@,
{
    lemma_object_round_trip(p);
    let one = spec_upsert(Seq::<PackageView>::empty(), p);
    assert(one =~= seq![p]);
    assert(json_items(one) == obj_of(p));
}

} // verus!
