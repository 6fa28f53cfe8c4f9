//! The persisted record codec: one JSON document per record, in one
//! canonical shape — fields in a fixed order; quote, backslash and
//! control characters escaped inside strings; optional fields as numbers
//! or `null`. The renderer's output is pinned character by character by
//! `spec_render_meta`, and the codec is a proven round trip: the parser
//! accepts a text exactly when it is the canonical rendering of a record
//! — every rendering parses back, and what is accepted re-renders
//! byte-for-byte to the text itself. A record file that parses is
//! therefore fully valid, and a half-written or altered one never parses.

use vstd::prelude::*;
use vstd::string::StringExecFns;
use crate::strutil::{spec_dec, u64_to_string};
use crate::types::{spec_type_name, FileMeta, FileType};

verus! {

/// The lowercase hexadecimal digit character for a value below sixteen.
pub open spec fn hex_char(n: nat) -> char {
    if n < 10 {
        crate::strutil::digit_char(n)
    } else if n == 10 {
        'a'
    } else if n == 11 {
        'b'
    } else if n == 12 {
        'c'
    } else if n == 13 {
        'd'
    } else if n == 14 {
        'e'
    } else {
        'f'
    }
}

/// How one character sits inside a quoted string: quote and backslash
/// behind a backslash, a control character as `\u00` and its two hex
/// digits, anything else as itself.
pub open spec fn spec_escape_char(c: char) -> Seq<char> {
    if c == '"' {
        seq!['\\', '"']
    } else if c == '\\' {
        seq!['\\', '\\']
    } else if (c as u32) < 32 {
        seq![
            '\\',
            'u',
            '0',
            '0',
            hex_char((c as u32) as nat / 16),
            hex_char((c as u32) as nat % 16),
        ]
    } else {
        seq![c]
    }
}

/// A string's characters, escaped.
pub open spec fn spec_escape(s: Seq<char>) -> Seq<char>
    decreases s.len(),
{
    if s.len() == 0 {
        Seq::empty()
    } else {
        spec_escape(s.drop_last()) + spec_escape_char(s.last())
    }
}

/// A string as it sits in a record: quoted and escaped.
pub open spec fn spec_quote(s: Seq<char>) -> Seq<char> {
    seq!['"'] + spec_escape(s) + seq!['"']
}

/// A signed value in decimal.
pub open spec fn spec_render_i64(n: int) -> Seq<char> {
    if n < 0 {
        seq!['-'] + spec_dec((-n) as nat)
    } else {
        spec_dec(n as nat)
    }
}

/// An optional descriptor: its value, or `null`.
pub open spec fn spec_render_opt(v: Option<u32>) -> Seq<char> {
    match v {
        Some(n) => spec_dec(n as nat),
        None => "null"@,
    }
}

/// The canonical rendering of a record.
pub open spec fn spec_render_meta(m: FileMeta) -> Seq<char> {
    "{\"original_path\":"@ + spec_quote(m.original_path@) + ",\"trash_path\":"@ + spec_quote(
        m.trash_path@,
    ) + ",\"delete_time\":"@ + spec_quote(m.delete_time@) + ",\"expire_days\":"@ + spec_render_i64(
        m.expire_days as int,
    ) + ",\"file_type\":\""@ + spec_type_name(m.file_type) + "\",\"permissions\":"@
        + spec_render_opt(m.permissions) + ",\"uid\":"@ + spec_render_opt(m.uid) + ",\"gid\":"@
        + spec_render_opt(m.gid) + ",\"short_id\":"@ + spec_quote(m.short_id@)
        + ",\"size_bytes\":"@ + spec_dec(m.size_bytes as nat) + "}"@
}

/// Relies on String::push: appends exactly the one character.
#[verifier::external_body]
fn push_char(s: &mut String, c: char)
    ensures
        final(s)@ == old(s)@.push(c),
{
    s.push(c);
}

/// The lowercase hexadecimal digit string for a value below sixteen.
fn hex_str(d: u64) -> (r: &'static str)
    requires
        d < 16,
    ensures
        r@ == seq![hex_char(d as nat)],
{
    if d < 10 {
        crate::strutil::digit_str(d)
    } else {
        proof {
            reveal_strlit("a");
            reveal_strlit("b");
            reveal_strlit("c");
            reveal_strlit("d");
            reveal_strlit("e");
            reveal_strlit("f");
        }
        let r: &'static str = if d == 10 {
            "a"
        } else if d == 11 {
            "b"
        } else if d == 12 {
            "c"
        } else if d == 13 {
            "d"
        } else if d == 14 {
            "e"
        } else {
            "f"
        };
        proof {
            assert(r@ =~= seq![hex_char(d as nat)]);
        }
        r
    }
}

/// Quotes and escapes a string.
fn quote_string(s: &str) -> (r: String)
    ensures
        r@ == spec_quote(s@),
{
    proof {
        reveal_strlit("\"");
        reveal_strlit("\\\"");
        reveal_strlit("\\\\");
        assert("\""@ =~= seq!['"']);
        assert("\\\""@ =~= seq!['\\', '"']);
        assert("\\\\"@ =~= seq!['\\', '\\']);
    }
    let len = s.unicode_len();
    let mut r = String::from_str("\"");
    let mut i: usize = 0;
    while i < len
        invariant
            len == s@.len(),
            i <= len,
            r@ == seq!['"'] + spec_escape(s@.subrange(0, i as int)),
        decreases len - i,
    {
        let c = s.get_char(i);
        if c == '"' {
            r.append("\\\"");
        } else if c == '\\' {
            r.append("\\\\");
        } else if (c as u32) < 32 {
            let code = c as u32;
            r.append("\\u00");
            r.append(hex_str((code / 16) as u64));
            r.append(hex_str((code % 16) as u64));
        } else {
            push_char(&mut r, c);
        }
        proof {
            reveal_strlit("\\\"");
            reveal_strlit("\\\\");
            reveal_strlit("\\u00");
            assert("\\\""@ =~= seq!['\\', '"']);
            assert("\\\\"@ =~= seq!['\\', '\\']);
            assert("\\u00"@ =~= seq!['\\', 'u', '0', '0']);
            assert(s@.subrange(0, i + 1).drop_last() =~= s@.subrange(0, i as int));
            assert(s@.subrange(0, i + 1).last() == s@[i as int]);
            assert(r@ =~= seq!['"'] + spec_escape(s@.subrange(0, i + 1)));
        }
        i = i + 1;
    }
    proof {
        assert(s@.subrange(0, len as int) =~= s@);
    }
    let r = r.concat("\"");
    proof {
        assert(r@ =~= spec_quote(s@));
    }
    r
}

/// Renders a signed value in decimal.
fn i64_to_string(n: i64) -> (r: String)
    ensures
        r@ == spec_render_i64(n as int),
{
    if n < 0 {
        proof {
            reveal_strlit("-");
            assert("-"@ =~= seq!['-']);
        }
        let mag: u64 = (-(n as i128)) as u64;
        let r = String::from_str("-").concat(u64_to_string(mag).as_str());
        proof {
            assert(r@ =~= spec_render_i64(n as int));
        }
        r
    } else {
        u64_to_string(n as u64)
    }
}

/// Renders an optional descriptor.
fn opt_u32_to_string(v: &Option<u32>) -> (r: String)
    ensures
        r@ == spec_render_opt(*v),
{
    match v {
        Some(n) => u64_to_string(*n as u64),
        None => String::from_str("null"),
    }
}

/// Renders a record into its canonical persisted form.
pub fn render_meta(m: &FileMeta) -> (r: String)
    ensures
        r@ == spec_render_meta(*m),
{
    let r = String::from_str("{\"original_path\":").concat(
        quote_string(m.original_path.as_str()).as_str(),
    ).concat(",\"trash_path\":").concat(quote_string(m.trash_path.as_str()).as_str()).concat(
        ",\"delete_time\":",
    ).concat(quote_string(m.delete_time.as_str()).as_str()).concat(",\"expire_days\":").concat(
        i64_to_string(m.expire_days).as_str(),
    ).concat(",\"file_type\":\"").concat(m.file_type.name()).concat("\",\"permissions\":").concat(
        opt_u32_to_string(&m.permissions).as_str(),
    ).concat(",\"uid\":").concat(opt_u32_to_string(&m.uid).as_str()).concat(",\"gid\":").concat(
        opt_u32_to_string(&m.gid).as_str(),
    ).concat(",\"short_id\":").concat(quote_string(m.short_id.as_str()).as_str()).concat(
        ",\"size_bytes\":",
    ).concat(u64_to_string(m.size_bytes).as_str()).concat("}");
    proof {
        assert(r@ =~= spec_render_meta(*m));
    }
    r
}

/// The characters of a text, for position-wise scanning.
fn str_to_chars(s: &str) -> (r: Vec<char>)
    ensures
        r@ == s@,
{
    let len = s.unicode_len();
    let mut r: Vec<char> = Vec::new();
    let mut i: usize = 0;
    while i < len
        invariant
            len == s@.len(),
            i <= len,
            r@ =~= s@.subrange(0, i as int),
        decreases len - i,
    {
        r.push(s.get_char(i));
        proof {
            assert(r@ =~= s@.subrange(0, i + 1));
        }
        i = i + 1;
    }
    proof {
        assert(r@ =~= s@);
    }
    r
}

/// Advances over an exact literal.
/// Whether the literal sits at `pos` in `v`.
pub open spec fn lit_at(v: Seq<char>, pos: int, lit: Seq<char>) -> bool {
    0 <= pos && pos + lit.len() <= v.len() && v.subrange(pos, pos + lit.len()) == lit
}

fn expect_lit(v: &Vec<char>, pos: usize, lit: &str) -> (r: Option<usize>)
    requires
        pos <= v@.len(),
    ensures
        r matches Some(p) ==> pos <= p <= v@.len() && p == pos + lit@.len() && lit_at(
            v@,
            pos as int,
            lit@,
        ),
        lit_at(v@, pos as int, lit@) ==> r is Some,
{
    let llen = lit.unicode_len();
    if llen > v.len() - pos {
        return None;
    }
    let mut i: usize = 0;
    while i < llen
        invariant
            llen == lit@.len(),
            pos + llen <= v@.len(),
            v@.len() <= usize::MAX,
            i <= llen,
            forall|j: int| 0 <= j < i ==> v@[pos + j] == lit@[j],
        decreases llen - i,
    {
        if v[pos + i] != lit.get_char(i) {
            proof {
                if lit_at(v@, pos as int, lit@) {
                    assert(v@.subrange(pos as int, pos + llen)[i as int] == lit@[i as int]);
                }
            }
            return None;
        }
        i = i + 1;
    }
    proof {
        assert(v@.subrange(pos as int, pos + llen) =~= lit@);
    }
    Some(pos + llen)
}

/// The numeric value of a lowercase hexadecimal digit; sixteen otherwise.
pub open spec fn hex_digit_val(c: char) -> nat {
    if crate::datetime::char_digit(c) < 10 {
        crate::datetime::char_digit(c)
    } else if c == 'a' {
        10
    } else if c == 'b' {
        11
    } else if c == 'c' {
        12
    } else if c == 'd' {
        13
    } else if c == 'e' {
        14
    } else if c == 'f' {
        15
    } else {
        16
    }
}

/// Reads a lowercase hexadecimal digit character.
fn to_hex_val(c: char) -> (r: Option<u64>)
    ensures
        hex_digit_val(c) < 16 ==> r == Some(hex_digit_val(c) as u64),
        hex_digit_val(c) == 16 ==> r is None,
{
    match crate::datetime::char_to_digit(c) {
        Some(d) => Some(d),
        None => {
            if c == 'a' {
                Some(10)
            } else if c == 'b' {
                Some(11)
            } else if c == 'c' {
                Some(12)
            } else if c == 'd' {
                Some(13)
            } else if c == 'e' {
                Some(14)
            } else if c == 'f' {
                Some(15)
            } else {
                None
            }
        },
    }
}

/// The control character with the given scalar value.
fn control_char(code: u64) -> (c: char)
    requires
        code < 32,
    ensures
        c as u32 == code,
{
    if code == 0 {
        '\u{0}'
    } else if code == 1 {
        '\u{1}'
    } else if code == 2 {
        '\u{2}'
    } else if code == 3 {
        '\u{3}'
    } else if code == 4 {
        '\u{4}'
    } else if code == 5 {
        '\u{5}'
    } else if code == 6 {
        '\u{6}'
    } else if code == 7 {
        '\u{7}'
    } else if code == 8 {
        '\u{8}'
    } else if code == 9 {
        '\u{9}'
    } else if code == 10 {
        '\u{a}'
    } else if code == 11 {
        '\u{b}'
    } else if code == 12 {
        '\u{c}'
    } else if code == 13 {
        '\u{d}'
    } else if code == 14 {
        '\u{e}'
    } else if code == 15 {
        '\u{f}'
    } else if code == 16 {
        '\u{10}'
    } else if code == 17 {
        '\u{11}'
    } else if code == 18 {
        '\u{12}'
    } else if code == 19 {
        '\u{13}'
    } else if code == 20 {
        '\u{14}'
    } else if code == 21 {
        '\u{15}'
    } else if code == 22 {
        '\u{16}'
    } else if code == 23 {
        '\u{17}'
    } else if code == 24 {
        '\u{18}'
    } else if code == 25 {
        '\u{19}'
    } else if code == 26 {
        '\u{1a}'
    } else if code == 27 {
        '\u{1b}'
    } else if code == 28 {
        '\u{1c}'
    } else if code == 29 {
        '\u{1d}'
    } else if code == 30 {
        '\u{1e}'
    } else {
        '\u{1f}'
    }
}

/// An escaped string body and its closing quote sit at `pos`.
pub open spec fn quoted_tail_at(v: Seq<char>, pos: int, x: Seq<char>) -> bool {
    &&& 0 <= pos
    &&& pos + spec_escape(x).len() + 1 <= v.len()
    &&& v.subrange(pos, pos + spec_escape(x).len()) == spec_escape(x)
    &&& v[pos + spec_escape(x).len()] == '"'
}

proof fn lemma_escape_front(x: Seq<char>)
    requires
        x.len() > 0,
    ensures
        spec_escape(x) == spec_escape_char(x[0]) + spec_escape(x.drop_first()),
    decreases x.len(),
{
    if x.len() == 1 {
        assert(x.drop_last() =~= Seq::<char>::empty());
        assert(x.drop_first() =~= Seq::<char>::empty());
        assert(spec_escape(x) =~= spec_escape_char(x[0]) + spec_escape(x.drop_first()));
    } else {
        lemma_escape_front(x.drop_last());
        assert(x.drop_last().drop_first() =~= x.drop_first().drop_last());
        assert(x.drop_last()[0] == x[0]);
        assert(x.drop_first().last() == x.last());
        assert(spec_escape(x.drop_first()) == spec_escape(x.drop_first().drop_last())
            + spec_escape_char(x.drop_first().last()));
        assert(spec_escape(x) =~= spec_escape_char(x[0]) + spec_escape(x.drop_first()));
    }
}

proof fn lemma_hex_val_of_hex_char(n: nat)
    requires
        n < 16,
    ensures
        hex_digit_val(hex_char(n)) == n,
{
    if n < 10 {
        crate::datetime::lemma_char_digit_of_digit_char(n);
    }
}

/// Scanning from `i`, having already read `got`, can still finish `x`:
/// the rest of `x` sits escaped and quoted at `i`.
spec fn scan_str_resumes(v: Seq<char>, pos: int, i: int, got: Seq<char>, x: Seq<char>) -> bool {
    &&& got.len() <= x.len()
    &&& x.subrange(0, got.len() as int) == got
    &&& quoted_tail_at(v, i, x.skip(got.len() as int))
    &&& pos + spec_escape(x).len() == i + spec_escape(x.skip(got.len() as int)).len()
}

proof fn lemma_resume_step(v: Seq<char>, pos: int, i: int, got: Seq<char>, x: Seq<char>)
    requires
        scan_str_resumes(v, pos, i, got, x),
        x.skip(got.len() as int).len() > 0,
    ensures
        scan_str_resumes(
            v,
            pos,
            i + spec_escape_char(x.skip(got.len() as int)[0]).len(),
            got.push(x.skip(got.len() as int)[0]),
            x,
        ),
{
    let y = x.skip(got.len() as int);
    lemma_escape_front(y);
    let y0 = y[0];
    let k = spec_escape_char(y0).len() as int;
    assert(x.subrange(0, got.len() as int + 1) =~= got.push(y0));
    assert(x.skip(got.len() as int + 1) =~= y.drop_first());
    let e2 = spec_escape(y.drop_first());
    assert forall|t: int| 0 <= t < e2.len() implies v[i + k + t] == e2[t] by {
        assert(v.subrange(i, i + spec_escape(y).len())[k + t] == spec_escape(y)[k + t]);
    };
    assert(v.subrange(i + k, i + k + e2.len()) =~= e2);
    assert(quoted_tail_at(v, i + k, y.drop_first()));
}

/// Scans a quoted, escaped string body up to and over its closing quote.
/// Where exactly the escaped form of a text and a closing quote sit at
/// `pos`, that text and the position past the quote are returned.
#[verifier::rlimit(100)]
fn scan_string(v: &Vec<char>, pos: usize) -> (r: Option<(String, usize)>)
    requires
        pos <= v@.len(),
    ensures
        r matches Some(p) ==> pos <= p.1 <= v@.len(),
        forall|x: Seq<char>|
            quoted_tail_at(v@, pos as int, x) ==> (r is Some && r->Some_0.0@ == x && r->Some_0.1
                == pos + spec_escape(x).len() + 1),
{
    let mut acc = String::new();
    let mut i = pos;
    proof {
        assert forall|x: Seq<char>| quoted_tail_at(v@, pos as int, x) implies scan_str_resumes(
            v@,
            pos as int,
            pos as int,
            acc@,
            x,
        ) by {
            assert(x.skip(0) =~= x);
            assert(x.subrange(0, 0) =~= acc@);
        };
    }
    loop
        invariant
            pos <= i <= v@.len(),
            forall|x: Seq<char>|
                quoted_tail_at(v@, pos as int, x) ==> scan_str_resumes(
                    v@,
                    pos as int,
                    i as int,
                    acc@,
                    x,
                ),
        decreases v@.len() - i,
    {
        if i >= v.len() {
            proof {
                assert forall|x: Seq<char>| !quoted_tail_at(v@, pos as int, x) by {
                    if quoted_tail_at(v@, pos as int, x) {
                        assert(scan_str_resumes(v@, pos as int, i as int, acc@, x));
                    }
                };
            }
            return None;
        }
        let c = v[i];
        if c == '"' {
            proof {
                assert forall|x: Seq<char>| quoted_tail_at(v@, pos as int, x) implies acc@ == x
                    && i + 1 == pos + spec_escape(x).len() + 1 by {
                    let y = x.skip(acc@.len() as int);
                    if y.len() > 0 {
                        lemma_escape_front(y);
                        let y0 = y[0];
                        assert(v@.subrange(i as int, i + spec_escape(y).len())[0] == spec_escape(
                            y,
                        )[0]);
                        if y0 == '"' || y0 == '\\' || (y0 as u32) < 32 {
                            assert(spec_escape_char(y0)[0] == '\\');
                        } else {
                            assert(spec_escape_char(y0)[0] == y0);
                        }
                        assert(false);
                    }
                    assert(x =~= acc@);
                };
            }
            return Some((acc, i + 1));
        }
        if c == '\\' {
            if i + 1 >= v.len() {
                proof {
                    assert forall|x: Seq<char>| !quoted_tail_at(v@, pos as int, x) by {
                        if quoted_tail_at(v@, pos as int, x) {
                            lemma_scan_str_pair_shape(v@, pos as int, i as int, acc@, x);
                        }
                    };
                }
                return None;
            }
            let e = v[i + 1];
            if e == 'u' {
                if v.len() - i < 6 || !(v[i + 2] == '0' && v[i + 3] == '0') {
                    proof {
                        lemma_control_case_impossible(v@, pos as int, i as int, acc@);
                    }
                    return None;
                }
                let h1 = match to_hex_val(v[i + 4]) {
                    Some(h) => h,
                    None => {
                        proof {
                            lemma_control_case_impossible(v@, pos as int, i as int, acc@);
                        }
                        return None;
                    },
                };
                let h2 = match to_hex_val(v[i + 5]) {
                    Some(h) => h,
                    None => {
                        proof {
                            lemma_control_case_impossible(v@, pos as int, i as int, acc@);
                        }
                        return None;
                    },
                };
                let code = h1 * 16 + h2;
                if code >= 32 {
                    proof {
                        lemma_control_case_impossible(v@, pos as int, i as int, acc@);
                    }
                    return None;
                }
                let c0 = control_char(code);
                proof {
                    assert forall|x: Seq<char>|
                        quoted_tail_at(v@, pos as int, x) implies scan_str_resumes(
                        v@,
                        pos as int,
                        i + 6,
                        acc@.push(c0),
                        x,
                    ) by {
                        let y = x.skip(acc@.len() as int);
                        let y0 = lemma_scan_str_pair_shape(v@, pos as int, i as int, acc@, x);
                        assert((y0 as u32) < 32);
                        let cv = (y0 as u32) as nat;
                        lemma_hex_val_of_hex_char(cv / 16);
                        lemma_hex_val_of_hex_char(cv % 16);
                        assert(v@.subrange(i as int, i + spec_escape(y).len())[4] == spec_escape(
                            y,
                        )[4]);
                        assert(v@.subrange(i as int, i + spec_escape(y).len())[5] == spec_escape(
                            y,
                        )[5]);
                        assert(hex_digit_val(v@[i + 4]) == cv / 16);
                        assert(hex_digit_val(v@[i + 5]) == cv % 16);
                        assert(code == cv);
                        assert(c0 as u32 == y0 as u32);
                        assert(c0 == y0);
                        lemma_resume_step(v@, pos as int, i as int, acc@, x);
                        assert(spec_escape_char(y0).len() == 6);
                    };
                }
                push_char(&mut acc, c0);
                i = i + 6;
            } else {
                proof {
                    assert forall|x: Seq<char>|
                        quoted_tail_at(v@, pos as int, x) implies scan_str_resumes(
                        v@,
                        pos as int,
                        i + 2,
                        acc@.push(e),
                        x,
                    ) by {
                        let y = x.skip(acc@.len() as int);
                        let y0 = lemma_scan_str_pair_shape(v@, pos as int, i as int, acc@, x);
                        if (y0 as u32) < 32 {
                            assert(spec_escape_char(y0)[1] == 'u');
                            assert(false);
                        }
                        assert(y0 == e);
                        lemma_resume_step(v@, pos as int, i as int, acc@, x);
                        assert(spec_escape_char(y0).len() == 2);
                    };
                }
                push_char(&mut acc, e);
                i = i + 2;
            }
        } else {
            proof {
                assert forall|x: Seq<char>|
                    quoted_tail_at(v@, pos as int, x) implies scan_str_resumes(
                    v@,
                    pos as int,
                    i + 1,
                    acc@.push(c),
                    x,
                ) by {
                    let y = x.skip(acc@.len() as int);
                    assert(scan_str_resumes(v@, pos as int, i as int, acc@, x));
                    if y.len() == 0 {
                        assert(v@[i as int] == '"');
                        assert(false);
                    }
                    lemma_escape_front(y);
                    let y0 = y[0];
                    assert(v@.subrange(i as int, i + spec_escape(y).len())[0] == spec_escape(y)[0]);
                    if y0 == '"' || y0 == '\\' || (y0 as u32) < 32 {
                        assert(spec_escape_char(y0)[0] == '\\');
                        assert(false);
                    }
                    assert(y0 == c);
                    lemma_resume_step(v@, pos as int, i as int, acc@, x);
                    assert(spec_escape_char(y0).len() == 1);
                };
            }
            push_char(&mut acc, c);
            i = i + 1;
        }
    }
}

/// Under a canonical tail whose stream shows a backslash, the next source
/// character is one that escapes to a pair or a control sequence; returns
/// that character.
proof fn lemma_scan_str_pair_shape(v: Seq<char>, pos: int, i: int, got: Seq<char>, x: Seq<char>) -> (
    y0: char)
    requires
        quoted_tail_at(v, pos, x),
        scan_str_resumes(v, pos, i, got, x),
        i < v.len(),
        v[i] == '\\',
    ensures
        x.skip(got.len() as int).len() > 0,
        y0 == x.skip(got.len() as int)[0],
        spec_escape(x.skip(got.len() as int)) == spec_escape_char(y0) + spec_escape(
            x.skip(got.len() as int).drop_first(),
        ),
        y0 == '"' || y0 == '\\' || (y0 as u32) < 32,
        spec_escape_char(y0).len() >= 2,
        i + spec_escape_char(y0).len() + 1 <= v.len(),
        forall|t: int|
            0 <= t < spec_escape_char(y0).len() ==> v[i + t] == #[trigger] spec_escape_char(y0)[t],
{
    let y = x.skip(got.len() as int);
    if y.len() == 0 {
        assert(v[i] == '"');
    }
    lemma_escape_front(y);
    let y0_ = y[0];
    assert(v.subrange(i, i + spec_escape(y).len())[0] == spec_escape(y)[0]);
    if !(y0_ == '"' || y0_ == '\\' || (y0_ as u32) < 32) {
        assert(spec_escape_char(y0_)[0] == y0_);
        assert(false);
    }
    assert forall|t: int|
        0 <= t < spec_escape_char(y0_).len() implies v[i + t] == #[trigger] spec_escape_char(
        y0_,
    )[t] by {
        assert(v.subrange(i, i + spec_escape(y).len())[t] == spec_escape(y)[t]);
    };
    y0_
}

/// When the stream at `i` is not a well-formed control escape, no source
/// text can sit canonically at `pos`; called only on such streams.
proof fn lemma_control_case_impossible(v: Seq<char>, pos: int, i: int, got: Seq<char>)
    requires
        0 <= i,
        i + 1 < v.len(),
        v[i] == '\\',
        v[i + 1] == 'u',
        forall|x: Seq<char>|
            quoted_tail_at(v, pos, x) ==> #[trigger] scan_str_resumes(v, pos, i, got, x),
        v.len() - i < 6 || !(v[i + 2] == '0' && v[i + 3] == '0') || hex_digit_val(v[i + 4]) >= 16
            || hex_digit_val(v[i + 5]) >= 16 || hex_digit_val(v[i + 4]) * 16 + hex_digit_val(
            v[i + 5],
        ) >= 32,
    ensures
        forall|x: Seq<char>| !quoted_tail_at(v, pos, x),
{
    assert forall|x: Seq<char>| !quoted_tail_at(v, pos, x) by {
        if quoted_tail_at(v, pos, x) {
            let y0 = lemma_scan_str_pair_shape(v, pos, i, got, x);
            if y0 == '"' || y0 == '\\' {
                assert(spec_escape_char(y0)[1] == v[i + 1]);
                assert(false);
            }
            let cv = (y0 as u32) as nat;
            lemma_hex_val_of_hex_char(cv / 16);
            lemma_hex_val_of_hex_char(cv % 16);
            assert(v[i + 2] == '0' && v[i + 3] == '0');
            assert(hex_digit_val(v[i + 4]) == cv / 16);
            assert(hex_digit_val(v[i + 5]) == cv % 16);
            assert(false);
        }
    };
}

/// The numeric value of a digit text, most significant digit first.
pub open spec fn spec_digits_val(ds: Seq<char>) -> nat
    decreases ds.len(),
{
    if ds.len() == 0 {
        0
    } else {
        spec_digits_val(ds.drop_last()) * 10 + crate::datetime::char_digit(ds.last())
    }
}

/// A decimal rendering consists of digit characters and reads back as the
/// value it renders.
proof fn lemma_digits_val_of_dec(n: nat)
    ensures
        spec_digits_val(spec_dec(n)) == n,
        forall|k: int|
            0 <= k < spec_dec(n).len() ==> crate::datetime::char_digit(
                #[trigger] spec_dec(n)[k],
            ) < 10,
    decreases n,
{
    if n < 10 {
        assert(spec_dec(n).drop_last() =~= Seq::<char>::empty());
        assert(spec_dec(n).last() == crate::strutil::digit_char(n));
        crate::datetime::lemma_char_digit_of_digit_char(n);
        assert(spec_digits_val(spec_dec(n)) == spec_digits_val(Seq::<char>::empty()) * 10
            + crate::datetime::char_digit(crate::strutil::digit_char(n)));
    } else {
        lemma_digits_val_of_dec(n / 10);
        assert(spec_dec(n).drop_last() =~= spec_dec(n / 10));
        assert(spec_dec(n).last() == crate::strutil::digit_char(n % 10));
        crate::datetime::lemma_char_digit_of_digit_char(n % 10);
        assert(spec_digits_val(spec_dec(n)) == spec_digits_val(spec_dec(n / 10)) * 10
            + crate::datetime::char_digit(crate::strutil::digit_char(n % 10)));
    }
}

proof fn lemma_digits_val_prefix_le(ds: Seq<char>, k: int)
    requires
        0 <= k <= ds.len(),
    ensures
        spec_digits_val(ds.subrange(0, k)) <= spec_digits_val(ds),
    decreases ds.len() - k,
{
    if k < ds.len() {
        lemma_digits_val_prefix_le(ds, k + 1);
        assert(ds.subrange(0, k + 1).drop_last() =~= ds.subrange(0, k));
        assert(spec_digits_val(ds.subrange(0, k + 1)) >= spec_digits_val(ds.subrange(0, k)));
    } else {
        assert(ds.subrange(0, k) =~= ds);
    }
}

/// The decimal rendering of `n` sits at `pos`, ended by the text's end or
/// a non-digit character.
pub open spec fn dec_at(v: Seq<char>, pos: int, n: nat) -> bool {
    &&& lit_at(v, pos, spec_dec(n))
    &&& (pos + spec_dec(n).len() == v.len() || crate::datetime::char_digit(
        v[pos + spec_dec(n).len()],
    ) >= 10)
}

/// Scans an unsigned decimal value; rejects one that does not fit. Where
/// the text at `pos` is exactly a value's rendering followed by the end or
/// a non-digit, that value and the position after it are returned.
fn scan_u64(v: &Vec<char>, pos: usize) -> (r: Option<(u64, usize)>)
    requires
        pos <= v@.len(),
    ensures
        r matches Some(p) ==> pos <= p.1 <= v@.len(),
        forall|n: u64|
            dec_at(v@, pos as int, n as nat) ==> (r is Some && r->Some_0.0 == n && r->Some_0.1
                == pos + spec_dec(n as nat).len()),
{
    let mut i = pos;
    let mut value: u64 = 0;
    let mut any = false;
    while i < v.len() && crate::datetime::char_to_digit(v[i]).is_some()
        invariant
            pos <= i <= v@.len(),
            any == (i > pos),
            value == spec_digits_val(v@.subrange(pos as int, i as int)),
            forall|j: int| pos <= j < i ==> crate::datetime::char_digit(#[trigger] v@[j]) < 10,
        decreases v@.len() - i,
    {
        let d: u64 = match crate::datetime::char_to_digit(v[i]) {
            Some(d) => d,
            None => 0,
        };
        proof {
            assert(v@.subrange(pos as int, i + 1).drop_last() =~= v@.subrange(pos as int, i as int));
            assert(v@.subrange(pos as int, i + 1).last() == v@[i as int]);
        }
        value = match value.checked_mul(10) {
            Some(x) => match x.checked_add(d) {
                Some(y) => y,
                None => {
                    proof {
                        lemma_no_overflow_under_canonical(v@, pos as int, i as int);
                    }
                    return None;
                },
            },
            None => {
                proof {
                    lemma_no_overflow_under_canonical(v@, pos as int, i as int);
                }
                return None;
            },
        };
        any = true;
        i = i + 1;
    }
    proof {
        assert(i == v@.len() || crate::datetime::char_digit(v@[i as int]) >= 10);
        assert forall|n: u64| dec_at(v@, pos as int, n as nat) implies i == pos + spec_dec(
            n as nat,
        ).len() && value == n by {
            let ds = spec_dec(n as nat);
            lemma_digits_val_of_dec(n as nat);
            if i > pos + ds.len() {
                assert(crate::datetime::char_digit(v@[pos + ds.len()]) < 10);
            }
            if i < pos + ds.len() {
                assert(v@.subrange(pos as int, pos + ds.len())[i - pos] == ds[i - pos]);
                assert(crate::datetime::char_digit(v@[i as int]) < 10);
            }
            assert(v@.subrange(pos as int, i as int) =~= ds);
        };
    }
    if any {
        Some((value, i))
    } else {
        None
    }
}

/// Under a canonical decimal at `pos`, no digit prefix can outgrow the
/// value itself, so the running value never overflows.
proof fn lemma_no_overflow_under_canonical(v: Seq<char>, pos: int, i: int)
    requires
        0 <= pos <= i,
        i < v.len(),
        crate::datetime::char_digit(v[i]) < 10,
        forall|j: int| pos <= j < i ==> crate::datetime::char_digit(#[trigger] v[j]) < 10,
        spec_digits_val(v.subrange(pos, i)) * 10 + crate::datetime::char_digit(v[i]) > u64::MAX,
    ensures
        forall|n: u64| !dec_at(v, pos, n as nat),
{
    assert forall|n: u64| !dec_at(v, pos, n as nat) by {
        if dec_at(v, pos, n as nat) {
            let ds = spec_dec(n as nat);
            lemma_digits_val_of_dec(n as nat);
            if i >= pos + ds.len() {
                assert(crate::datetime::char_digit(v[pos + ds.len()]) < 10);
            }
            assert(i < pos + ds.len());
            assert(v.subrange(pos, pos + ds.len()) == ds);
            assert(v.subrange(pos, i + 1) =~= ds.subrange(0, i + 1 - pos));
            lemma_digits_val_prefix_le(ds, i + 1 - pos);
            assert(v.subrange(pos, i + 1).drop_last() =~= v.subrange(pos, i));
            assert(spec_digits_val(v.subrange(pos, i + 1)) == spec_digits_val(v.subrange(pos, i))
                * 10 + crate::datetime::char_digit(v[i]));
        }
    };
}

/// The decimal rendering of a signed value sits at `pos`, ended by the
/// text's end or a non-digit character.
pub open spec fn i64_at(v: Seq<char>, pos: int, n: int) -> bool {
    &&& lit_at(v, pos, spec_render_i64(n))
    &&& (pos + spec_render_i64(n).len() == v.len() || crate::datetime::char_digit(
        v[pos + spec_render_i64(n).len()],
    ) >= 10)
}

/// Scans a signed decimal value; where the text at `pos` is exactly a
/// value's rendering, that value and the position after it are returned.
fn scan_i64(v: &Vec<char>, pos: usize) -> (r: Option<(i64, usize)>)
    requires
        pos <= v@.len(),
    ensures
        r matches Some(p) ==> pos <= p.1 <= v@.len(),
        forall|n: i64|
            i64_at(v@, pos as int, n as int) ==> (r is Some && r->Some_0.0 == n && r->Some_0.1
                == pos + spec_render_i64(n as int).len()),
{
    proof {
        assert forall|n: i64| i64_at(v@, pos as int, n as int) implies spec_render_i64(
            n as int,
        )[0] == v@[pos as int] && (n < 0 ==> v@[pos as int] == '-') && (n >= 0 ==> dec_at(
            v@,
            pos as int,
            n as nat,
        ) && v@[pos as int] != '-') by {
            let ds = spec_render_i64(n as int);
            assert(v@.subrange(pos as int, pos + ds.len())[0] == ds[0]);
            if n >= 0 {
                lemma_digits_val_of_dec(n as nat);
                assert(crate::datetime::char_digit(ds[0]) < 10);
            }
        };
    }
    if pos < v.len() && v[pos] == '-' {
        proof {
            assert forall|n: i64| i64_at(v@, pos as int, n as int) implies n < 0 && dec_at(
                v@,
                pos as int + 1,
                (-(n as int)) as nat,
            ) by {
                let ds = spec_render_i64(n as int);
                let mag = (-(n as int)) as nat;
                assert forall|t: int| 0 <= t < spec_dec(mag).len() implies v@[pos as int + 1 + t]
                    == spec_dec(mag)[t] by {
                    assert(v@.subrange(pos as int, pos + ds.len())[1 + t] == ds[1 + t]);
                };
                assert(v@.subrange(pos as int + 1, pos as int + 1 + spec_dec(mag).len())
                    =~= spec_dec(mag));
            };
        }
        match scan_u64(v, pos + 1) {
            Some((mag, p)) => {
                if mag <= 9223372036854775807u64 {
                    let r = Some(((-(mag as i128)) as i64, p));
                    proof {
                        assert forall|n: i64| i64_at(v@, pos as int, n as int) implies (
                        (-(mag as i128)) as i64 == n && p == pos + spec_render_i64(
                            n as int,
                        ).len()) by {
                            assert(dec_at(v@, pos as int + 1, ((-(n as int)) as u64) as nat));
                        };
                    }
                    r
                } else if mag == 9223372036854775808u64 {
                    proof {
                        assert forall|n: i64| i64_at(v@, pos as int, n as int) implies (i64::MIN
                            == n && p == pos + spec_render_i64(n as int).len()) by {
                            assert(dec_at(v@, pos as int + 1, ((-(n as int)) as u64) as nat));
                        };
                    }
                    Some((i64::MIN, p))
                } else {
                    proof {
                        assert forall|n: i64| !i64_at(v@, pos as int, n as int) by {
                            if i64_at(v@, pos as int, n as int) {
                                assert(dec_at(v@, pos as int + 1, ((-(n as int)) as u64) as nat));
                            }
                        };
                    }
                    None
                }
            },
            None => {
                proof {
                    assert forall|n: i64| !i64_at(v@, pos as int, n as int) by {
                        if i64_at(v@, pos as int, n as int) {
                            assert(dec_at(v@, pos as int + 1, ((-(n as int)) as u64) as nat));
                        }
                    };
                }
                None
            },
        }
    } else {
        match scan_u64(v, pos) {
            Some((mag, p)) => {
                if mag <= 9223372036854775807u64 {
                    proof {
                        assert forall|n: i64| i64_at(v@, pos as int, n as int) implies (mag as i64
                            == n && p == pos + spec_render_i64(n as int).len()) by {
                            assert(n >= 0);
                            assert(dec_at(v@, pos as int, (n as u64) as nat));
                        };
                    }
                    Some((mag as i64, p))
                } else {
                    proof {
                        assert forall|n: i64| !i64_at(v@, pos as int, n as int) by {
                            if i64_at(v@, pos as int, n as int) {
                                assert(n >= 0);
                                assert(dec_at(v@, pos as int, (n as u64) as nat));
                            }
                        };
                    }
                    None
                }
            },
            None => {
                proof {
                    assert forall|n: i64| !i64_at(v@, pos as int, n as int) by {
                        if i64_at(v@, pos as int, n as int) {
                            assert(n >= 0);
                            assert(dec_at(v@, pos as int, (n as u64) as nat));
                        }
                    };
                }
                None
            },
        }
    }
}

/// The rendering of a descriptor sits at `pos`: `null`, or a value's
/// decimal digits ended by the text's end or a non-digit.
pub open spec fn opt_u32_at(v: Seq<char>, pos: int, o: Option<u32>) -> bool {
    match o {
        None => lit_at(v, pos, "null"@),
        Some(u) => dec_at(v, pos, u as nat),
    }
}

/// Scans a descriptor: a value or `null`. Where the text at `pos` is
/// exactly a descriptor's rendering, that descriptor and the position
/// after it are returned.
fn scan_opt_u32(v: &Vec<char>, pos: usize) -> (r: Option<(Option<u32>, usize)>)
    requires
        pos <= v@.len(),
    ensures
        r matches Some(p) ==> pos <= p.1 <= v@.len(),
        forall|o: Option<u32>|
            opt_u32_at(v@, pos as int, o) ==> (r is Some && r->Some_0.0 == o && r->Some_0.1 == pos
                + spec_render_opt(o).len()),
{
    proof {
        reveal_strlit("null");
        assert forall|u: u32| dec_at(v@, pos as int, u as nat) implies !lit_at(
            v@,
            pos as int,
            "null"@,
        ) by {
            lemma_digits_val_of_dec(u as nat);
            assert(v@.subrange(pos as int, pos + spec_dec(u as nat).len())[0] == spec_dec(
                u as nat,
            )[0]);
            if lit_at(v@, pos as int, "null"@) {
                assert(v@.subrange(pos as int, pos + "null"@.len())[0] == "null"@[0]);
            }
        };
    }
    match expect_lit(v, pos, "null") {
        Some(p) => Some((None, p)),
        None => {
            match scan_u64(v, pos) {
                Some((n, p)) => {
                    if n <= 4294967295u64 {
                        proof {
                            assert forall|o: Option<u32>|
                                opt_u32_at(v@, pos as int, o) implies (o == Some(n as u32) && p
                                == pos + spec_render_opt(o).len()) by {
                                match o {
                                    Some(u) => {
                                        assert(dec_at(v@, pos as int, (u as u64) as nat));
                                    },
                                    None => {},
                                }
                            };
                        }
                        Some((Some(n as u32), p))
                    } else {
                        proof {
                            assert forall|o: Option<u32>| !opt_u32_at(v@, pos as int, o) by {
                                match o {
                                    Some(u) => {
                                        if opt_u32_at(v@, pos as int, o) {
                                            assert(dec_at(v@, pos as int, (u as u64) as nat));
                                        }
                                    },
                                    None => {},
                                }
                            };
                        }
                        None
                    }
                },
                None => {
                    proof {
                        assert forall|o: Option<u32>| !opt_u32_at(v@, pos as int, o) by {
                            match o {
                                Some(u) => {
                                    if opt_u32_at(v@, pos as int, o) {
                                        assert(dec_at(v@, pos as int, (u as u64) as nat));
                                    }
                                },
                                None => {},
                            }
                        };
                    }
                    None
                },
            }
        },
    }
}

/// The kind name and its closing quote sit at `pos`.
pub open spec fn file_type_at(v: Seq<char>, pos: int, ft: FileType) -> bool {
    lit_at(v, pos, spec_type_name(ft) + seq!['"'])
}

/// Scans the kind name and its closing quote; where a kind's rendering
/// sits at `pos`, that kind and the position after the quote are returned.
fn scan_file_type(v: &Vec<char>, pos: usize) -> (r: Option<(FileType, usize)>)
    requires
        pos <= v@.len(),
    ensures
        r matches Some(p) ==> pos <= p.1 <= v@.len(),
        forall|ft: FileType|
            file_type_at(v@, pos as int, ft) ==> (r is Some && r->Some_0.0 == ft && r->Some_0.1
                == pos + spec_type_name(ft).len() + 1),
{
    proof {
        reveal_strlit("File\"");
        reveal_strlit("Dir\"");
        reveal_strlit("Symlink\"");
        assert("File\""@ =~= spec_type_name(FileType::File) + seq!['"']);
        assert("Dir\""@ =~= spec_type_name(FileType::Dir) + seq!['"']);
        assert("Symlink\""@ =~= spec_type_name(FileType::Symlink) + seq!['"']);
        assert forall|ft: FileType| file_type_at(v@, pos as int, ft) implies v@[pos as int]
            == spec_type_name(ft)[0] by {
            let lit = spec_type_name(ft) + seq!['"'];
            assert(v@.subrange(pos as int, pos + lit.len())[0] == lit[0]);
        };
    }
    match expect_lit(v, pos, "File\"") {
        Some(p) => {
            proof {
                assert(v@.subrange(pos as int, pos + "File\""@.len())[0] == "File\""@[0]);
                assert(v@[pos as int] == 'F');
            }
            Some((FileType::File, p))
        },
        None => match expect_lit(v, pos, "Dir\"") {
            Some(p) => {
                proof {
                    assert(v@.subrange(pos as int, pos + "Dir\""@.len())[0] == "Dir\""@[0]);
                    assert(v@[pos as int] == 'D');
                }
                Some((FileType::Dir, p))
            },
            None => match expect_lit(v, pos, "Symlink\"") {
                Some(p) => {
                    proof {
                        assert(v@.subrange(pos as int, pos + "Symlink\""@.len())[0]
                            == "Symlink\""@[0]);
                        assert(v@[pos as int] == 'S');
                    }
                    Some((FileType::Symlink, p))
                },
                None => {
                    proof {
                        assert forall|ft: FileType| !file_type_at(v@, pos as int, ft) by {
                            if file_type_at(v@, pos as int, ft) {
                                match ft {
                                    FileType::File => {
                                        assert(lit_at(v@, pos as int, "File\""@));
                                    },
                                    FileType::Dir => {
                                        assert(lit_at(v@, pos as int, "Dir\""@));
                                    },
                                    FileType::Symlink => {
                                        assert(lit_at(v@, pos as int, "Symlink\""@));
                                    },
                                }
                            }
                        };
                    }
                    None
                },
            },
        },
    }
}

/// Where each piece of a record's canonical rendering sits: the fixed
/// literals, the three leading quoted strings, the retention window, the
/// kind, the three descriptors, the short identifier and the size, each at
/// its offset, with the closing brace ending the text.
#[verifier::rlimit(100)]
proof fn lemma_render_meta_shape(mm: FileMeta)
    ensures
        ({
            let s = spec_render_meta(mm);
            let o1 = "{\"original_path\":\""@.len() as int;
            let o2 = o1 + spec_escape(mm.original_path@).len() + 1;
            let o3 = o2 + ",\"trash_path\":\""@.len();
            let o4 = o3 + spec_escape(mm.trash_path@).len() + 1;
            let o5 = o4 + ",\"delete_time\":\""@.len();
            let o6 = o5 + spec_escape(mm.delete_time@).len() + 1;
            let o7 = o6 + ",\"expire_days\":"@.len();
            let o8 = o7 + spec_render_i64(mm.expire_days as int).len();
            let o9 = o8 + ",\"file_type\":\""@.len();
            let o10 = o9 + spec_type_name(mm.file_type).len() + 1;
            let o11 = o10 + ",\"permissions\":"@.len();
            let o12 = o11 + spec_render_opt(mm.permissions).len();
            let o13 = o12 + ",\"uid\":"@.len();
            let o14 = o13 + spec_render_opt(mm.uid).len();
            let o15 = o14 + ",\"gid\":"@.len();
            let o16 = o15 + spec_render_opt(mm.gid).len();
            let o17 = o16 + ",\"short_id\":\""@.len();
            let o18 = o17 + spec_escape(mm.short_id@).len() + 1;
            let o19 = o18 + ",\"size_bytes\":"@.len();
            let o20 = o19 + spec_dec(mm.size_bytes as nat).len();
            &&& s.len() == o20 + 1
            &&& lit_at(s, 0, "{\"original_path\":\""@)
            &&& quoted_tail_at(s, o1, mm.original_path@)
            &&& lit_at(s, o2, ",\"trash_path\":\""@)
            &&& quoted_tail_at(s, o3, mm.trash_path@)
            &&& lit_at(s, o4, ",\"delete_time\":\""@)
            &&& quoted_tail_at(s, o5, mm.delete_time@)
            &&& lit_at(s, o6, ",\"expire_days\":"@)
            &&& i64_at(s, o7, mm.expire_days as int)
            &&& lit_at(s, o8, ",\"file_type\":\""@)
            &&& file_type_at(s, o9, mm.file_type)
            &&& lit_at(s, o10, ",\"permissions\":"@)
            &&& opt_u32_at(s, o11, mm.permissions)
            &&& lit_at(s, o12, ",\"uid\":"@)
            &&& opt_u32_at(s, o13, mm.uid)
            &&& lit_at(s, o14, ",\"gid\":"@)
            &&& opt_u32_at(s, o15, mm.gid)
            &&& lit_at(s, o16, ",\"short_id\":\""@)
            &&& quoted_tail_at(s, o17, mm.short_id@)
            &&& lit_at(s, o18, ",\"size_bytes\":"@)
            &&& dec_at(s, o19, mm.size_bytes as nat)
            &&& lit_at(s, o20, "}"@)
        }),
{
    let s = spec_render_meta(mm);
    reveal_strlit("{\"original_path\":");
    reveal_strlit("{\"original_path\":\"");
    reveal_strlit(",\"trash_path\":");
    reveal_strlit(",\"trash_path\":\"");
    reveal_strlit(",\"delete_time\":");
    reveal_strlit(",\"delete_time\":\"");
    reveal_strlit(",\"expire_days\":");
    reveal_strlit(",\"file_type\":\"");
    reveal_strlit("\",\"permissions\":");
    reveal_strlit(",\"permissions\":");
    reveal_strlit(",\"uid\":");
    reveal_strlit(",\"gid\":");
    reveal_strlit(",\"short_id\":");
    reveal_strlit(",\"short_id\":\"");
    reveal_strlit(",\"size_bytes\":");
    reveal_strlit("}");
    reveal_strlit("null");
    assert("{\"original_path\":\""@ =~= "{\"original_path\":"@ + seq!['"']);
    assert(",\"trash_path\":\""@ =~= ",\"trash_path\":"@ + seq!['"']);
    assert(",\"delete_time\":\""@ =~= ",\"delete_time\":"@ + seq!['"']);
    assert(",\"short_id\":\""@ =~= ",\"short_id\":"@ + seq!['"']);
    assert("\",\"permissions\":"@ =~= seq!['"'] + ",\"permissions\":"@);
    let o1 = "{\"original_path\":\""@.len() as int;
    let o2 = o1 + spec_escape(mm.original_path@).len() + 1;
    let o3 = o2 + ",\"trash_path\":\""@.len();
    let o4 = o3 + spec_escape(mm.trash_path@).len() + 1;
    let o5 = o4 + ",\"delete_time\":\""@.len();
    let o6 = o5 + spec_escape(mm.delete_time@).len() + 1;
    let o7 = o6 + ",\"expire_days\":"@.len();
    let o8 = o7 + spec_render_i64(mm.expire_days as int).len();
    let o9 = o8 + ",\"file_type\":\""@.len();
    let o10 = o9 + spec_type_name(mm.file_type).len() + 1;
    let o11 = o10 + ",\"permissions\":"@.len();
    let o12 = o11 + spec_render_opt(mm.permissions).len();
    let o13 = o12 + ",\"uid\":"@.len();
    let o14 = o13 + spec_render_opt(mm.uid).len();
    let o15 = o14 + ",\"gid\":"@.len();
    let o16 = o15 + spec_render_opt(mm.gid).len();
    let o17 = o16 + ",\"short_id\":\""@.len();
    let o18 = o17 + spec_escape(mm.short_id@).len() + 1;
    let o19 = o18 + ",\"size_bytes\":"@.len();
    let o20 = o19 + spec_dec(mm.size_bytes as nat).len();
    assert(s.len() == o20 + 1);
    assert(s.subrange(0, o1) =~= "{\"original_path\":\""@);
    assert(s.subrange(o1, o2 - 1) =~= spec_escape(mm.original_path@));
    assert(s[o2 - 1] == '"');
    assert(s.subrange(o2, o3) =~= ",\"trash_path\":\""@);
    assert(s.subrange(o3, o4 - 1) =~= spec_escape(mm.trash_path@));
    assert(s[o4 - 1] == '"');
    assert(s.subrange(o4, o5) =~= ",\"delete_time\":\""@);
    assert(s.subrange(o5, o6 - 1) =~= spec_escape(mm.delete_time@));
    assert(s[o6 - 1] == '"');
    assert(s.subrange(o6, o7) =~= ",\"expire_days\":"@);
    assert(s.subrange(o7, o8) =~= spec_render_i64(mm.expire_days as int));
    assert(s[o8] == ',');
    assert(s.subrange(o8, o9) =~= ",\"file_type\":\""@);
    assert(s.subrange(o9, o10) =~= spec_type_name(mm.file_type) + seq!['"']);
    assert(s.subrange(o10, o11) =~= ",\"permissions\":"@);
    assert(s.subrange(o11, o12) =~= spec_render_opt(mm.permissions));
    assert(s[o12] == ',');
    assert(s.subrange(o12, o13) =~= ",\"uid\":"@);
    assert(s.subrange(o13, o14) =~= spec_render_opt(mm.uid));
    assert(s[o14] == ',');
    assert(s.subrange(o14, o15) =~= ",\"gid\":"@);
    assert(s.subrange(o15, o16) =~= spec_render_opt(mm.gid));
    assert(s[o16] == ',');
    assert(s.subrange(o16, o17) =~= ",\"short_id\":\""@);
    assert(s.subrange(o17, o18 - 1) =~= spec_escape(mm.short_id@));
    assert(s[o18 - 1] == '"');
    assert(s.subrange(o18, o19) =~= ",\"size_bytes\":"@);
    assert(s.subrange(o19, o20) =~= spec_dec(mm.size_bytes as nat));
    assert(s[o20] == '}');
    assert(s.subrange(o20, o20 + 1) =~= "}"@);
    lemma_opt_at(s, o11, mm.permissions);
    lemma_opt_at(s, o13, mm.uid);
    lemma_opt_at(s, o15, mm.gid);
    assert(i64_at(s, o7, mm.expire_days as int));
    assert(dec_at(s, o19, mm.size_bytes as nat));
}

/// A descriptor piece followed by a comma satisfies the descriptor shape.
proof fn lemma_opt_at(s: Seq<char>, o: int, v: Option<u32>)
    requires
        0 <= o,
        o + spec_render_opt(v).len() < s.len(),
        s.subrange(o, o + spec_render_opt(v).len()) == spec_render_opt(v),
        s[o + spec_render_opt(v).len()] == ',',
    ensures
        opt_u32_at(s, o, v),
{
    match v {
        Some(u) => {
            assert(dec_at(s, o, u as nat));
        },
        None => {},
    }
}

/// The text is the canonical rendering of the record.
spec fn canon(t: Seq<char>, mm: FileMeta) -> bool {
    t == spec_render_meta(mm)
}

spec fn off_op(mm: FileMeta) -> int {
    "{\"original_path\":\""@.len() as int
}

spec fn off_tp(mm: FileMeta) -> int {
    off_op(mm) + spec_escape(mm.original_path@).len() + 1 + ",\"trash_path\":\""@.len()
}

spec fn off_dt(mm: FileMeta) -> int {
    off_tp(mm) + spec_escape(mm.trash_path@).len() + 1 + ",\"delete_time\":\""@.len()
}

spec fn off_ed(mm: FileMeta) -> int {
    off_dt(mm) + spec_escape(mm.delete_time@).len() + 1 + ",\"expire_days\":"@.len()
}

spec fn off_ft(mm: FileMeta) -> int {
    off_ed(mm) + spec_render_i64(mm.expire_days as int).len() + ",\"file_type\":\""@.len()
}

spec fn off_pm(mm: FileMeta) -> int {
    off_ft(mm) + spec_type_name(mm.file_type).len() + 1 + ",\"permissions\":"@.len()
}

spec fn off_uid(mm: FileMeta) -> int {
    off_pm(mm) + spec_render_opt(mm.permissions).len() + ",\"uid\":"@.len()
}

spec fn off_gid(mm: FileMeta) -> int {
    off_uid(mm) + spec_render_opt(mm.uid).len() + ",\"gid\":"@.len()
}

spec fn off_si(mm: FileMeta) -> int {
    off_gid(mm) + spec_render_opt(mm.gid).len() + ",\"short_id\":\""@.len()
}

spec fn off_sz(mm: FileMeta) -> int {
    off_si(mm) + spec_escape(mm.short_id@).len() + 1 + ",\"size_bytes\":"@.len()
}

spec fn off_end(mm: FileMeta) -> int {
    off_sz(mm) + spec_dec(mm.size_bytes as nat).len() + 1
}

/// Reads a record out of a canonical rendering, field by field. A text
/// that is canonical for some record is always read, and what is read
/// re-renders to the text itself.
#[verifier::rlimit(100)]
fn scan_meta(text: &str) -> (r: Option<FileMeta>)
    ensures
        forall|mm: FileMeta|
            #[trigger] canon(text@, mm) ==> (r is Some && spec_render_meta(r->Some_0) == text@),
{
    let v = str_to_chars(text);
    let p0 = match expect_lit(&v, 0, "{\"original_path\":\"") {
        Some(p) => p,
        None => {
            proof {
                assert forall|mm: FileMeta| !canon(text@, mm) by {
                    if canon(text@, mm) {
                        lemma_render_meta_shape(mm);
                        assert(lit_at(v@, 0, "{\"original_path\":\""@));
                    }
                };
            }
            return None;
        },
    };
    proof {
        assert forall|mm: FileMeta| #[trigger] canon(text@, mm) implies p0 == off_op(mm)
            && quoted_tail_at(v@, p0 as int, mm.original_path@) by {
            lemma_render_meta_shape(mm);
        };
    }
    let (original_path, p1) = match scan_string(&v, p0) {
        Some(x) => x,
        None => {
            proof {
                assert forall|mm: FileMeta| !canon(text@, mm) by {
                    if canon(text@, mm) {
                        assert(quoted_tail_at(v@, p0 as int, mm.original_path@));
                    }
                };
            }
            return None;
        },
    };
    proof {
        assert forall|mm: FileMeta| #[trigger] canon(text@, mm) implies original_path@
            == mm.original_path@ && lit_at(v@, p1 as int, ",\"trash_path\":\""@) by {
            assert(quoted_tail_at(v@, p0 as int, mm.original_path@));
            lemma_render_meta_shape(mm);
        };
    }
    let p2 = match expect_lit(&v, p1, ",\"trash_path\":\"") {
        Some(p) => p,
        None => {
            proof {
                assert forall|mm: FileMeta| !canon(text@, mm) by {
                    if canon(text@, mm) {
                        assert(lit_at(v@, p1 as int, ",\"trash_path\":\""@));
                    }
                };
            }
            return None;
        },
    };
    proof {
        assert forall|mm: FileMeta| #[trigger] canon(text@, mm) implies p2 == off_tp(mm)
            && quoted_tail_at(v@, p2 as int, mm.trash_path@) by {
            lemma_render_meta_shape(mm);
        };
    }
    let (trash_path, p3) = match scan_string(&v, p2) {
        Some(x) => x,
        None => {
            proof {
                assert forall|mm: FileMeta| !canon(text@, mm) by {
                    if canon(text@, mm) {
                        assert(quoted_tail_at(v@, p2 as int, mm.trash_path@));
                    }
                };
            }
            return None;
        },
    };
    proof {
        assert forall|mm: FileMeta| #[trigger] canon(text@, mm) implies trash_path@
            == mm.trash_path@ && lit_at(v@, p3 as int, ",\"delete_time\":\""@) by {
            assert(quoted_tail_at(v@, p2 as int, mm.trash_path@));
            lemma_render_meta_shape(mm);
        };
    }
    let p4 = match expect_lit(&v, p3, ",\"delete_time\":\"") {
        Some(p) => p,
        None => {
            proof {
                assert forall|mm: FileMeta| !canon(text@, mm) by {
                    if canon(text@, mm) {
                        assert(lit_at(v@, p3 as int, ",\"delete_time\":\""@));
                    }
                };
            }
            return None;
        },
    };
    proof {
        assert forall|mm: FileMeta| #[trigger] canon(text@, mm) implies p4 == off_dt(mm)
            && quoted_tail_at(v@, p4 as int, mm.delete_time@) by {
            lemma_render_meta_shape(mm);
        };
    }
    let (delete_time, p5) = match scan_string(&v, p4) {
        Some(x) => x,
        None => {
            proof {
                assert forall|mm: FileMeta| !canon(text@, mm) by {
                    if canon(text@, mm) {
                        assert(quoted_tail_at(v@, p4 as int, mm.delete_time@));
                    }
                };
            }
            return None;
        },
    };
    proof {
        assert forall|mm: FileMeta| #[trigger] canon(text@, mm) implies delete_time@
            == mm.delete_time@ && lit_at(v@, p5 as int, ",\"expire_days\":"@) by {
            assert(quoted_tail_at(v@, p4 as int, mm.delete_time@));
            lemma_render_meta_shape(mm);
        };
    }
    let p6 = match expect_lit(&v, p5, ",\"expire_days\":") {
        Some(p) => p,
        None => {
            proof {
                assert forall|mm: FileMeta| !canon(text@, mm) by {
                    if canon(text@, mm) {
                        assert(lit_at(v@, p5 as int, ",\"expire_days\":"@));
                    }
                };
            }
            return None;
        },
    };
    proof {
        assert forall|mm: FileMeta| #[trigger] canon(text@, mm) implies p6 == off_ed(mm) && i64_at(
            v@,
            p6 as int,
            mm.expire_days as int,
        ) by {
            lemma_render_meta_shape(mm);
        };
    }
    let (expire_days, p7) = match scan_i64(&v, p6) {
        Some(x) => x,
        None => {
            proof {
                assert forall|mm: FileMeta| !canon(text@, mm) by {
                    if canon(text@, mm) {
                        assert(i64_at(v@, p6 as int, mm.expire_days as int));
                    }
                };
            }
            return None;
        },
    };
    proof {
        assert forall|mm: FileMeta| #[trigger] canon(text@, mm) implies expire_days
            == mm.expire_days && lit_at(v@, p7 as int, ",\"file_type\":\""@) by {
            assert(i64_at(v@, p6 as int, mm.expire_days as int));
            lemma_render_meta_shape(mm);
        };
    }
    let p8 = match expect_lit(&v, p7, ",\"file_type\":\"") {
        Some(p) => p,
        None => {
            proof {
                assert forall|mm: FileMeta| !canon(text@, mm) by {
                    if canon(text@, mm) {
                        assert(lit_at(v@, p7 as int, ",\"file_type\":\""@));
                    }
                };
            }
            return None;
        },
    };
    proof {
        assert forall|mm: FileMeta| #[trigger] canon(text@, mm) implies p8 == off_ft(mm)
            && file_type_at(v@, p8 as int, mm.file_type) by {
            lemma_render_meta_shape(mm);
        };
    }
    let (file_type, p9) = match scan_file_type(&v, p8) {
        Some(x) => x,
        None => {
            proof {
                assert forall|mm: FileMeta| !canon(text@, mm) by {
                    if canon(text@, mm) {
                        assert(file_type_at(v@, p8 as int, mm.file_type));
                    }
                };
            }
            return None;
        },
    };
    proof {
        assert forall|mm: FileMeta| #[trigger] canon(text@, mm) implies file_type == mm.file_type
            && lit_at(v@, p9 as int, ",\"permissions\":"@) by {
            assert(file_type_at(v@, p8 as int, mm.file_type));
            lemma_render_meta_shape(mm);
        };
    }
    let p10 = match expect_lit(&v, p9, ",\"permissions\":") {
        Some(p) => p,
        None => {
            proof {
                assert forall|mm: FileMeta| !canon(text@, mm) by {
                    if canon(text@, mm) {
                        assert(lit_at(v@, p9 as int, ",\"permissions\":"@));
                    }
                };
            }
            return None;
        },
    };
    proof {
        assert forall|mm: FileMeta| #[trigger] canon(text@, mm) implies p10 == off_pm(mm)
            && opt_u32_at(v@, p10 as int, mm.permissions) by {
            lemma_render_meta_shape(mm);
        };
    }
    let (permissions, p11) = match scan_opt_u32(&v, p10) {
        Some(x) => x,
        None => {
            proof {
                assert forall|mm: FileMeta| !canon(text@, mm) by {
                    if canon(text@, mm) {
                        assert(opt_u32_at(v@, p10 as int, mm.permissions));
                    }
                };
            }
            return None;
        },
    };
    proof {
        assert forall|mm: FileMeta| #[trigger] canon(text@, mm) implies permissions
            == mm.permissions && lit_at(v@, p11 as int, ",\"uid\":"@) by {
            assert(opt_u32_at(v@, p10 as int, mm.permissions));
            lemma_render_meta_shape(mm);
        };
    }
    let p12 = match expect_lit(&v, p11, ",\"uid\":") {
        Some(p) => p,
        None => {
            proof {
                assert forall|mm: FileMeta| !canon(text@, mm) by {
                    if canon(text@, mm) {
                        assert(lit_at(v@, p11 as int, ",\"uid\":"@));
                    }
                };
            }
            return None;
        },
    };
    proof {
        assert forall|mm: FileMeta| #[trigger] canon(text@, mm) implies p12 == off_uid(mm)
            && opt_u32_at(v@, p12 as int, mm.uid) by {
            lemma_render_meta_shape(mm);
        };
    }
    let (uid, p13) = match scan_opt_u32(&v, p12) {
        Some(x) => x,
        None => {
            proof {
                assert forall|mm: FileMeta| !canon(text@, mm) by {
                    if canon(text@, mm) {
                        assert(opt_u32_at(v@, p12 as int, mm.uid));
                    }
                };
            }
            return None;
        },
    };
    proof {
        assert forall|mm: FileMeta| #[trigger] canon(text@, mm) implies uid == mm.uid && lit_at(
            v@,
            p13 as int,
            ",\"gid\":"@,
        ) by {
            assert(opt_u32_at(v@, p12 as int, mm.uid));
            lemma_render_meta_shape(mm);
        };
    }
    let p14 = match expect_lit(&v, p13, ",\"gid\":") {
        Some(p) => p,
        None => {
            proof {
                assert forall|mm: FileMeta| !canon(text@, mm) by {
                    if canon(text@, mm) {
                        assert(lit_at(v@, p13 as int, ",\"gid\":"@));
                    }
                };
            }
            return None;
        },
    };
    proof {
        assert forall|mm: FileMeta| #[trigger] canon(text@, mm) implies p14 == off_gid(mm)
            && opt_u32_at(v@, p14 as int, mm.gid) by {
            lemma_render_meta_shape(mm);
        };
    }
    let (gid, p15) = match scan_opt_u32(&v, p14) {
        Some(x) => x,
        None => {
            proof {
                assert forall|mm: FileMeta| !canon(text@, mm) by {
                    if canon(text@, mm) {
                        assert(opt_u32_at(v@, p14 as int, mm.gid));
                    }
                };
            }
            return None;
        },
    };
    proof {
        assert forall|mm: FileMeta| #[trigger] canon(text@, mm) implies gid == mm.gid && lit_at(
            v@,
            p15 as int,
            ",\"short_id\":\""@,
        ) by {
            assert(opt_u32_at(v@, p14 as int, mm.gid));
            lemma_render_meta_shape(mm);
        };
    }
    let p16 = match expect_lit(&v, p15, ",\"short_id\":\"") {
        Some(p) => p,
        None => {
            proof {
                assert forall|mm: FileMeta| !canon(text@, mm) by {
                    if canon(text@, mm) {
                        assert(lit_at(v@, p15 as int, ",\"short_id\":\""@));
                    }
                };
            }
            return None;
        },
    };
    proof {
        assert forall|mm: FileMeta| #[trigger] canon(text@, mm) implies p16 == off_si(mm)
            && quoted_tail_at(v@, p16 as int, mm.short_id@) by {
            lemma_render_meta_shape(mm);
        };
    }
    let (short_id, p17) = match scan_string(&v, p16) {
        Some(x) => x,
        None => {
            proof {
                assert forall|mm: FileMeta| !canon(text@, mm) by {
                    if canon(text@, mm) {
                        assert(quoted_tail_at(v@, p16 as int, mm.short_id@));
                    }
                };
            }
            return None;
        },
    };
    proof {
        assert forall|mm: FileMeta| #[trigger] canon(text@, mm) implies short_id@ == mm.short_id@
            && lit_at(v@, p17 as int, ",\"size_bytes\":"@) by {
            assert(quoted_tail_at(v@, p16 as int, mm.short_id@));
            lemma_render_meta_shape(mm);
        };
    }
    let p18 = match expect_lit(&v, p17, ",\"size_bytes\":") {
        Some(p) => p,
        None => {
            proof {
                assert forall|mm: FileMeta| !canon(text@, mm) by {
                    if canon(text@, mm) {
                        assert(lit_at(v@, p17 as int, ",\"size_bytes\":"@));
                    }
                };
            }
            return None;
        },
    };
    proof {
        assert forall|mm: FileMeta| #[trigger] canon(text@, mm) implies p18 == off_sz(mm) && dec_at(
            v@,
            p18 as int,
            mm.size_bytes as nat,
        ) by {
            lemma_render_meta_shape(mm);
        };
    }
    let (size_bytes, p19) = match scan_u64(&v, p18) {
        Some(x) => x,
        None => {
            proof {
                assert forall|mm: FileMeta| !canon(text@, mm) by {
                    if canon(text@, mm) {
                        assert(dec_at(v@, p18 as int, mm.size_bytes as nat));
                    }
                };
            }
            return None;
        },
    };
    proof {
        assert forall|mm: FileMeta| #[trigger] canon(text@, mm) implies size_bytes
            == mm.size_bytes && lit_at(v@, p19 as int, "}"@) by {
            assert(dec_at(v@, p18 as int, mm.size_bytes as nat));
            lemma_render_meta_shape(mm);
        };
    }
    let p20 = match expect_lit(&v, p19, "}") {
        Some(p) => p,
        None => {
            proof {
                assert forall|mm: FileMeta| !canon(text@, mm) by {
                    if canon(text@, mm) {
                        assert(lit_at(v@, p19 as int, "}"@));
                    }
                };
            }
            return None;
        },
    };
    if p20 != v.len() {
        proof {
            assert forall|mm: FileMeta| !canon(text@, mm) by {
                if canon(text@, mm) {
                    lemma_render_meta_shape(mm);
                    assert(p20 == off_end(mm));
                    assert(v@.len() == off_end(mm));
                }
            };
        }
        return None;
    }
    let m = FileMeta {
        original_path,
        trash_path,
        delete_time,
        expire_days,
        file_type,
        permissions,
        uid,
        gid,
        short_id,
        size_bytes,
    };
    proof {
        assert forall|mm: FileMeta| #[trigger] canon(text@, mm) implies spec_render_meta(m)
            == text@ by {
            assert(spec_quote(m.original_path@) == spec_quote(mm.original_path@));
            assert(spec_quote(m.trash_path@) == spec_quote(mm.trash_path@));
            assert(spec_quote(m.delete_time@) == spec_quote(mm.delete_time@));
            assert(spec_quote(m.short_id@) == spec_quote(mm.short_id@));
            assert(spec_render_i64(m.expire_days as int) == spec_render_i64(
                mm.expire_days as int,
            ));
            assert(spec_type_name(m.file_type) == spec_type_name(mm.file_type));
            assert(spec_render_opt(m.permissions) == spec_render_opt(mm.permissions));
            assert(spec_render_opt(m.uid) == spec_render_opt(mm.uid));
            assert(spec_render_opt(m.gid) == spec_render_opt(mm.gid));
            assert(spec_dec(m.size_bytes as nat) == spec_dec(mm.size_bytes as nat));
            assert(spec_render_meta(m) == spec_render_meta(mm));
        };
    }
    Some(m)
}

/// The text the store writes for a record: exactly its canonical
/// rendering, for every record — serialization cannot fail, and by
/// `parse_meta`'s contract the written text always parses back, so the
/// rename that publishes the final name only ever publishes a text this
/// codec accepts.
pub fn persist_record(m: &FileMeta) -> (r: String)
    ensures
        r@ == spec_render_meta(*m),
{
    render_meta(m)
}

/// Parses a persisted record. A text is accepted exactly when it is, in
/// full, the canonical rendering of a record — every such text is
/// accepted, and the record returned is one whose rendering is the text
/// itself: whatever the scan yields is re-rendered and held against the
/// input, so a half-written or altered record file never parses, and a
/// fully written one always parses back.
pub fn parse_meta(text: &str) -> (r: Option<FileMeta>)
    ensures
        r matches Some(m) ==> text@ == spec_render_meta(m),
        (exists|mm: FileMeta| text@ == spec_render_meta(mm)) ==> r is Some,
{
    proof {
        if exists|mm: FileMeta| text@ == spec_render_meta(mm) {
            let w = choose|mm: FileMeta| text@ == spec_render_meta(mm);
            assert(canon(text@, w));
        }
    }
    let m = match scan_meta(text) {
        Some(m) => m,
        None => {
            return None;
        },
    };
    let rendered = render_meta(&m);
    if rendered.eq(&String::from_str(text)) {
        Some(m)
    } else {
        None
    }
}

} // verus!
