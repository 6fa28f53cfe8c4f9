//! Pure string helpers: decimal rendering, prefix and substring scans, and
//! the display-width path shortener.

use vstd::prelude::*;
use vstd::string::StringExecFns;

verus! {

/// The decimal digit character for a value below ten.
pub open spec fn digit_char(d: nat) -> char {
    if d == 0 {
        '0'
    } else if d == 1 {
        '1'
    } else if d == 2 {
        '2'
    } else if d == 3 {
        '3'
    } else if d == 4 {
        '4'
    } else if d == 5 {
        '5'
    } else if d == 6 {
        '6'
    } else if d == 7 {
        '7'
    } else if d == 8 {
        '8'
    } else {
        '9'
    }
}

/// The decimal rendering of a natural number, most significant digit first,
/// with no leading zeros (zero itself renders as "0").
pub open spec fn spec_dec(n: nat) -> Seq<char>
    decreases n,
{
    if n < 10 {
        seq![digit_char(n)]
    } else {
        spec_dec(n / 10) + seq![digit_char(n % 10)]
    }
}

/// The single-digit string for a value below ten.
pub fn digit_str(d: u64) -> (r: &'static str)
    requires
        d < 10,
    ensures
        r@ == seq![digit_char(d as nat)],
{
    proof {
        reveal_strlit("0");
        reveal_strlit("1");
        reveal_strlit("2");
        reveal_strlit("3");
        reveal_strlit("4");
        reveal_strlit("5");
        reveal_strlit("6");
        reveal_strlit("7");
        reveal_strlit("8");
        reveal_strlit("9");
    }
    let r: &'static str = if d == 0 {
        "0"
    } else if d == 1 {
        "1"
    } else if d == 2 {
        "2"
    } else if d == 3 {
        "3"
    } else if d == 4 {
        "4"
    } else if d == 5 {
        "5"
    } else if d == 6 {
        "6"
    } else if d == 7 {
        "7"
    } else if d == 8 {
        "8"
    } else {
        "9"
    };
    proof {
        assert(r@ =~= seq![digit_char(d as nat)]);
    }
    r
}

/// Renders a 64-bit value in decimal.
pub fn u64_to_string(n: u64) -> (r: String)
    ensures
        r@ == spec_dec(n as nat),
    decreases n,
{
    if n < 10 {
        String::from_str(digit_str(n))
    } else {
        let prefix = u64_to_string(n / 10);
        prefix.concat(digit_str(n % 10))
    }
}

/// Renders a 128-bit value in decimal.
pub fn u128_to_string(n: u128) -> (r: String)
    ensures
        r@ == spec_dec(n as nat),
    decreases n,
{
    if n < 10 {
        String::from_str(digit_str(n as u64))
    } else {
        let prefix = u128_to_string(n / 10);
        prefix.concat(digit_str((n % 10) as u64))
    }
}

/// Whether the characters hold two consecutive dots anywhere.
pub open spec fn spec_has_dotdot(s: Seq<char>) -> bool {
    exists|i: int| 0 <= i && i + 1 < s.len() && s[i] == '.' && #[trigger] s[i + 1] == '.'
}

/// Scans for two consecutive dots, the shape of a traversal segment.
pub fn has_dotdot(s: &str) -> (b: bool)
    ensures
        b == spec_has_dotdot(s@),
{
    let len = s.unicode_len();
    if len < 2 {
        return false;
    }
    let mut i: usize = 0;
    while i + 1 < len
        invariant
            len == s@.len(),
            2 <= len,
            i + 1 <= len,
            forall|j: int| 0 <= j && j + 1 < i + 1 ==> !(s@[j] == '.' && #[trigger] s@[j + 1] == '.'),
        decreases len - i,
    {
        if s.get_char(i) == '.' && s.get_char(i + 1) == '.' {
            assert(s@[i as int] == '.' && s@[i + 1] == '.');
            return true;
        }
        i = i + 1;
    }
    false
}

/// Whether `s` begins with `prefix`.
pub open spec fn spec_starts_with(s: Seq<char>, prefix: Seq<char>) -> bool {
    prefix.len() <= s.len() && s.subrange(0, prefix.len() as int) == prefix
}

/// Character-wise prefix test.
pub fn str_starts_with(s: &str, prefix: &str) -> (b: bool)
    ensures
        b == spec_starts_with(s@, prefix@),
{
    let slen = s.unicode_len();
    let plen = prefix.unicode_len();
    if plen > slen {
        return false;
    }
    let mut i: usize = 0;
    while i < plen
        invariant
            slen == s@.len(),
            plen == prefix@.len(),
            plen <= slen,
            i <= plen,
            forall|j: int| 0 <= j < i ==> s@[j] == prefix@[j],
        decreases plen - i,
    {
        if s.get_char(i) != prefix.get_char(i) {
            assert(s@.subrange(0, plen as int)[i as int] != prefix@[i as int]);
            return false;
        }
        i = i + 1;
    }
    proof {
        assert(s@.subrange(0, plen as int) =~= prefix@);
    }
    true
}

/// The path shortened to a display width: kept whole when it fits, else the
/// leading and trailing `(max - 3) / 2` characters joined by `"..."`.
pub open spec fn spec_truncate_path(s: Seq<char>, max: nat) -> Seq<char>
    recommends
        3 <= max,
{
    if s.len() <= max {
        s
    } else {
        let half = ((max - 3) / 2) as int;
        s.subrange(0, half) + seq!['.', '.', '.'] + s.subrange(s.len() - half, s.len() as int)
    }
}

/// Shortens a path for display to at most `max_len` characters. A path
/// that already fits is returned whole, whatever the width; only actual
/// truncation needs room for the three joining dots.
pub fn truncate_path(path: &str, max_len: usize) -> (r: String)
    requires
        path@.len() <= max_len || 3 <= max_len,
    ensures
        r@ == spec_truncate_path(path@, max_len as nat),
{
    let len = path.unicode_len();
    if len <= max_len {
        return String::from_str(path);
    }
    let half: usize = (max_len - 3) / 2;
    assert(half < len);
    let head = path.substring_char(0, half);
    let tail = path.substring_char(len - half, len);
    proof {
        reveal_strlit("...");
        assert("..."@ =~= seq!['.', '.', '.']);
    }
    let r = String::from_str(head).concat("...").concat(tail);
    r
}

} // verus!
