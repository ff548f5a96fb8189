//! The few pieces of HTTP that the serving shell needs as pure functions:
//! reading the method and path out of a request line, finding a request
//! body's declared length, and assembling a response.

use crate::parse::{is_ws, skip_ws};
use crate::text::to_chars;
use vstd::prelude::*;
use vstd::string::StrSliceExecFns;
use vstd::string::StringExecFns;

verus! {

/// The first position at or after `i` that holds `c`, or the length.
pub open spec fn find_char(s: Seq<char>, c: char, i: int) -> int
    decreases s.len() - i,
{
    if !(0 <= i < s.len()) {
        s.len() as int
    } else if s[i] == c {
        i
    } else {
        find_char(s, c, i + 1)
    }
}

/// The method and path of a request line: the tokens before the first space
/// and between the first and second space, both required to be nonempty.
pub open spec fn spec_request_line(s: Seq<char>) -> Option<(Seq<char>, Seq<char>)> {
    let a = find_char(s, ' ', 0);
    if a == s.len() || a == 0 {
        None
    } else {
        let b = find_char(s, ' ', a + 1);
        if b == s.len() || b == a + 1 {
            None
        } else {
            Some((s.subrange(0, a), s.subrange(a + 1, b)))
        }
    }
}

/// Case-insensitive equality of two characters, folding only ASCII letters.
pub open spec fn eq_ci(a: char, b: char) -> bool {
    ||| a == b
    ||| ('A' <= a && a <= 'Z' && (b as u32) == (a as u32) + 32)
    ||| ('A' <= b && b <= 'Z' && (a as u32) == (b as u32) + 32)
}

/// Case-insensitive equality of two character sequences.
pub open spec fn seq_eq_ci(a: Seq<char>, b: Seq<char>) -> bool {
    a.len() == b.len() && forall|i: int| 0 <= i < a.len() ==> eq_ci(a[i], b[i])
}

/// The length of `s` once trailing whitespace is dropped.
pub open spec fn trim_end(s: Seq<char>) -> int
    decreases s.len(),
{
    if s.len() == 0 {
        0
    } else if is_ws(s.last()) {
        trim_end(s.drop_last())
    } else {
        s.len() as int
    }
}

/// Whether every character of `s` is a decimal digit.
pub open spec fn all_digits(s: Seq<char>) -> bool {
    forall|i: int| 0 <= i < s.len() ==> 48 <= (s[i] as u32) && (s[i] as u32) <= 57
}

/// The number denoted by the digit string `s`.
pub open spec fn dec_val(s: Seq<char>) -> nat
    recommends
        all_digits(s),
    decreases s.len(),
{
    if s.len() == 0 {
        0
    } else {
        dec_val(s.drop_last()) * 10 + (((s.last() as u32) - 48) as nat)
    }
}

/// The value a `Content-Length` header line declares: the line's name part
/// must be `content-length` up to ASCII case, and its value part must be a
/// nonempty digit string (surrounded by optional whitespace) whose value
/// fits a `usize`.
pub open spec fn spec_content_length(line: Seq<char>) -> Option<nat> {
    let c = find_char(line, ':', 0);
    if c == line.len() {
        None
    } else if !seq_eq_ci(line.subrange(0, c), "content-length"@) {
        None
    } else {
        let d0 = skip_ws(line, c + 1);
        let e = trim_end(line);
        if !(d0 < e) {
            None
        } else {
            let digits = line.subrange(d0, e);
            if all_digits(digits) && dec_val(digits) <= usize::MAX {
                Some(dec_val(digits))
            } else {
                None
            }
        }
    }
}

/// The decimal digit character for `n`.
pub open spec fn digit_char(n: nat) -> char {
    if n == 0 { '0' } else if n == 1 { '1' } else if n == 2 { '2' } else if n == 3 { '3' }
    else if n == 4 { '4' } else if n == 5 { '5' } else if n == 6 { '6' } else if n == 7 { '7' }
    else if n == 8 { '8' } else { '9' }
}

/// The decimal digit string for `n`, most significant digit first.
pub open spec fn dec_digits(n: nat) -> Seq<char>
    decreases n,
{
    if n < 10 {
        seq![digit_char(n)]
    } else {
        dec_digits(n / 10) + seq![digit_char(n % 10)]
    }
}

/// A response: status line, content type and length, then the body.
pub open spec fn response_of(
    status: nat,
    reason: Seq<char>,
    ctype: Seq<char>,
    blen: nat,
    body: Seq<char>,
) -> Seq<char> {
    "HTTP/1.1 "@ + dec_digits(status) + " "@ + reason + "\r\nContent-Type: "@ + ctype
        + "\r\nContent-Length: "@ + dec_digits(blen) + "\r\nConnection: close\r\n\r\n"@ + body
}

/// A parsed request line: the method and the path.
pub struct RequestLine {
    pub method: String,
    pub path: String,
}

/// The executable counterpart of `find_char`.
fn find_char_exec(v: &Vec<char>, c: char, i: usize) -> (r: usize)
    requires
        i <= v@.len(),
    ensures
        r == find_char(v@, c, i as int),
        i <= r <= v@.len(),
{
    let n = v.len();
    let mut j: usize = i;
    while j < n && v[j] != c
        invariant
            n == v@.len(),
            i <= j <= n,
            find_char(v@, c, i as int) == find_char(v@, c, j as int),
        decreases n - j,
    {
        j = j + 1;
    }
    j
}

/// Copies `v[from..to]` into a fresh string.
fn chars_sub(v: &Vec<char>, from: usize, to: usize) -> (r: String)
    requires
        from <= to <= v@.len(),
    ensures
        r@ == v@.subrange(from as int, to as int),
{
    let mut out = String::new();
    let mut j: usize = from;
    while j < to
        invariant
            from <= j <= to <= v@.len(),
            out@ == v@.subrange(from as int, j as int),
        decreases to - j,
    {
        out.push(v[j]);
        j = j + 1;
        proof {
            assert(out@ =~= v@.subrange(from as int, j as int));
        }
    }
    out
}

/// Reads the method and the path out of an HTTP request line.
pub fn parse_request_line(line: &str) -> (r: Option<RequestLine>)
    ensures
        match r {
            Some(q) => spec_request_line(line@) == Some((q.method@, q.path@)),
            None => spec_request_line(line@) is None,
        },
{
    let v = to_chars(line);
    let a = find_char_exec(&v, ' ', 0);
    if a == v.len() || a == 0 {
        return None;
    }
    let b = find_char_exec(&v, ' ', a + 1);
    if b == v.len() || b == a + 1 {
        return None;
    }
    let method = chars_sub(&v, 0, a);
    let path = chars_sub(&v, a + 1, b);
    Some(RequestLine { method, path })
}

/// `dec_val` of a prefix never exceeds `dec_val` of the whole digit string.
proof fn lemma_dec_val_prefix(s: Seq<char>, k: int)
    requires
        0 <= k <= s.len(),
    ensures
        dec_val(s.take(k)) <= dec_val(s),
    decreases s.len() - k,
{
    if k < s.len() {
        lemma_dec_val_prefix(s, k + 1);
        assert(s.take(k + 1).drop_last() =~= s.take(k));
        assert(s.take(k + 1).last() == s[k]);
        assert(dec_val(s.take(k)) <= dec_val(s.take(k + 1)));
    } else {
        assert(s.take(k) =~= s);
    }
}

/// The value of the `Content-Length` header line `line`, if it is one.
pub fn header_content_length(line: &str) -> (r: Option<usize>)
    ensures
        match r {
            Some(m) => spec_content_length(line@) == Some(m as nat),
            None => spec_content_length(line@) is None,
        },
{
    let v = to_chars(line);
    let c = find_char_exec(&v, ':', 0);
    if c == v.len() {
        return None;
    }
    // The name part must read `content-length`, ASCII case aside.
    let name = "content-length";
    let ghost pre = v@.subrange(0, c as int);
    let nlen = name.unicode_len();
    if c != nlen {
        proof {
            assert(pre.len() != name@.len());
        }
        return None;
    }
    let mut i: usize = 0;
    while i < nlen
        invariant
            v@ == line@,
            name@ == "content-length"@,
            nlen == name@.len(),
            i <= nlen,
            c == nlen < v@.len(),
            c == find_char(line@, ':', 0),
            pre == v@.subrange(0, c as int),
            forall|j: int| 0 <= j < i ==> eq_ci(pre[j], name@[j]),
        decreases nlen - i,
    {
        let a = v[i];
        let b = name.get_char(i);
        let au = a as u32;
        let bu = b as u32;
        let ok = a == b || ('A' <= a && a <= 'Z' && bu == au + 32)
            || ('A' <= b && b <= 'Z' && au == bu + 32);
        if !ok {
            proof {
                assert(pre[i as int] == v@[i as int]);
                assert(!eq_ci(pre[i as int], name@[i as int]));
                assert(!seq_eq_ci(line@.subrange(0, c as int), "content-length"@));
                assert(spec_content_length(line@) is None);
            }
            return None;
        }
        proof {
            assert(pre[i as int] == v@[i as int]);
            assert(eq_ci(pre[i as int], name@[i as int]));
        }
        i = i + 1;
    }
    proof {
        assert(seq_eq_ci(pre, name@));
    }
    // The value part: digits between optional whitespace.
    let d0 = crate::parse::skip_ws_exec(&v, c + 1);
    let e = trim_end_exec(&v);
    if !(d0 < e) {
        return None;
    }
    let ghost digits = v@.subrange(d0 as int, e as int);
    let mut acc: usize = 0;
    let mut k: usize = d0;
    while k < e
        invariant
            v@ == line@,
            c < v@.len(),
            c == find_char(line@, ':', 0),
            seq_eq_ci(line@.subrange(0, c as int), "content-length"@),
            d0 == skip_ws(line@, c + 1),
            e == trim_end(line@),
            d0 < e,
            d0 <= k <= e <= v@.len(),
            digits == v@.subrange(d0 as int, e as int),
            all_digits(digits.take(k - d0)),
            acc == dec_val(digits.take(k - d0)),
        decreases e - k,
    {
        let ch = v[k];
        let cu = ch as u32;
        if !(cu >= 48 && cu <= 57) {
            proof {
                assert(digits[k - d0] == v@[k as int]);
                assert(!all_digits(digits));
            }
            return None;
        }
        let d = (cu - 48) as usize;
        proof {
            assert(digits.take(k - d0 + 1).drop_last() =~= digits.take(k - d0));
            assert(digits.take(k - d0 + 1).last() == digits[k - d0]);
            assert(digits[k - d0] == v@[k as int]);
        }
        let lim = (usize::MAX - d) / 10;
        if acc > lim {
            proof {
                assert(dec_val(digits.take(k - d0 + 1)) == acc * 10 + d);
                assert(acc * 10 + d > usize::MAX) by (nonlinear_arith)
                    requires
                        acc > (usize::MAX - d) / 10,
                        d <= 9,
                ;
                lemma_dec_val_prefix(digits, k - d0 + 1);
            }
            return None;
        }
        acc = acc * 10 + d;
        k = k + 1;
        proof {
            assert forall|j: int| 0 <= j < k - d0 implies
                48 <= (#[trigger] digits.take(k - d0)[j] as u32)
                    && (digits.take(k - d0)[j] as u32) <= 57 by {
                assert(digits.take(k - d0)[j] == digits[j]);
            }
        }
    }
    proof {
        assert(digits.take(e - d0) =~= digits);
    }
    Some(acc)
}

/// The executable counterpart of `trim_end`.
fn trim_end_exec(v: &Vec<char>) -> (r: usize)
    ensures
        r == trim_end(v@),
        r <= v@.len(),
{
    let mut j: usize = v.len();
    proof {
        assert(v@.take(v@.len() as int) =~= v@);
    }
    while j > 0 && (v[j - 1] == ' ' || v[j - 1] == '\t' || v[j - 1] == '\n' || v[j - 1] == '\r')
        invariant
            j <= v@.len(),
            trim_end(v@) == trim_end(v@.take(j as int)),
        decreases j,
    {
        proof {
            let t = v@.take(j as int);
            assert(t.last() == v@[j - 1]);
            assert(is_ws(t.last()));
            assert(t.drop_last() =~= v@.take(j - 1));
        }
        j = j - 1;
    }
    proof {
        let t = v@.take(j as int);
        if j > 0 {
            assert(t.last() == v@[j - 1]);
            assert(!is_ws(t.last()));
        }
        assert(trim_end(t) == j);
    }
    j
}

/// The executable counterpart of `digit_char`.
fn digit_char_exec(n: usize) -> (c: char)
    requires
        n < 10,
    ensures
        c == digit_char(n as nat),
{
    if n == 0 { '0' } else if n == 1 { '1' } else if n == 2 { '2' } else if n == 3 { '3' }
    else if n == 4 { '4' } else if n == 5 { '5' } else if n == 6 { '6' } else if n == 7 { '7' }
    else if n == 8 { '8' } else { '9' }
}

/// Appends the decimal digits of `n` to `out`.
fn push_dec(out: &mut String, n: usize)
    ensures
        final(out)@ == old(out)@ + dec_digits(n as nat),
    decreases n,
{
    if n < 10 {
        out.push(digit_char_exec(n));
        proof {
            assert(out@ =~= old(out)@ + dec_digits(n as nat));
        }
    } else {
        push_dec(out, n / 10);
        out.push(digit_char_exec(n % 10));
        proof {
            assert(out@ =~= old(out)@ + dec_digits(n as nat));
        }
    }
}

/// Assembles a complete response for `body`, whose declared length is its
/// length in bytes.
pub fn http_response(status: u16, reason: &str, content_type: &str, body: &str) -> (r: String)
    ensures
        r@ == response_of(status as nat, reason@, content_type@, body.len() as nat, body@),
{
    let mut out = String::from_str("HTTP/1.1 ");
    push_dec(&mut out, status as usize);
    out.append(" ");
    out.append(reason);
    out.append("\r\nContent-Type: ");
    out.append(content_type);
    out.append("\r\nContent-Length: ");
    push_dec(&mut out, body.len());
    out.append("\r\nConnection: close\r\n\r\n");
    out.append(body);
    proof {
        assert(out@ =~= response_of(status as nat, reason@, content_type@, body.len() as nat,
            body@));
    }
    out
}

} // verus!
