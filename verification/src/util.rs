//! Bijective base-26 codec: every non-negative integer has a unique
//! lowercase-letter code (`0 -> "a"`, ..., `25 -> "z"`, `26 -> "aa"`, ...),
//! and every non-empty lowercase string is the code of exactly one integer.
use vstd::prelude::*;

verus! {

use vstd::arithmetic::div_mod::{lemma_fundamental_div_mod, lemma_fundamental_div_mod_converse};
use crate::text::chars_to_string;

/// A character is one of the 26 lowercase code letters.
pub open spec fn is_lower(c: char) -> bool {
    'a' <= c && c <= 'z'
}

pub open spec fn all_lower(s: Seq<char>) -> bool {
    forall|i: int| 0 <= i < s.len() ==> is_lower(#[trigger] s[i])
}

/// The letter whose digit value is `d + 1`, for `0 <= d < 26`.
pub open spec fn letter_of(d: int) -> char {
    ((d + 97) as u8) as char
}

/// The digit value of a lowercase letter, from 1 for 'a' to 26 for 'z'.
pub open spec fn digit_of(c: char) -> int {
    c as int - 96
}

/// The bijective base-26 code of `n`.
pub open spec fn encode26(n: nat) -> Seq<char>
    decreases n,
{
    if n < 26 {
        seq![letter_of(n as int)]
    } else {
        encode26((n / 26 - 1) as nat).push(letter_of((n % 26) as int))
    }
}

/// The value of a digit string in bijective base-26, one above the integer
/// it encodes; the empty string has value 0.
pub open spec fn val26(s: Seq<char>) -> int
    decreases s.len(),
{
    if s.len() == 0 {
        0
    } else {
        val26(s.drop_last()) * 26 + digit_of(s.last())
    }
}

/// The integer whose bijective base-26 code is `s`.
pub open spec fn decode26(s: Seq<char>) -> int {
    val26(s) - 1
}

pub proof fn lemma_encode26_wf(n: nat)
    ensures
        encode26(n).len() >= 1,
        all_lower(encode26(n)),
    decreases n,
{
    if n < 26 {
        assert(is_lower(letter_of(n as int)));
    } else {
        lemma_encode26_wf((n / 26 - 1) as nat);
        assert(is_lower(letter_of((n % 26) as int)));
    }
}

pub proof fn lemma_val26_nonneg(s: Seq<char>)
    requires
        all_lower(s),
    ensures
        val26(s) >= 0,
        s.len() >= 1 ==> val26(s) >= 1,
    decreases s.len(),
{
    if s.len() > 0 {
        assert(all_lower(s.drop_last())) by {
            assert(forall|i: int|
                0 <= i < s.len() - 1 ==> #[trigger] s.drop_last()[i] == s[i]);
        }
        lemma_val26_nonneg(s.drop_last());
    }
}

/// Encoding then decoding gives the integer back: the codec loses nothing,
/// for every non-negative integer.
pub proof fn lemma_base26_round_trip(n: nat)
    ensures
        decode26(encode26(n)) == n,
    decreases n,
{
    if n < 26 {
        let s = encode26(n);
        assert(s.drop_last() =~= Seq::<char>::empty());
        assert(val26(Seq::<char>::empty()) == 0);
        assert(s.last() == letter_of(n as int));
        assert(letter_of(n as int) as int == n + 97);
        assert(val26(s) == digit_of(letter_of(n as int)));
    } else {
        let m = (n / 26 - 1) as nat;
        lemma_base26_round_trip(m);
        let c = letter_of((n % 26) as int);
        let s = encode26(m).push(c);
        assert(s.drop_last() =~= encode26(m));
        assert(s.last() == c);
        lemma_fundamental_div_mod(n as int, 26);
        assert(val26(s) == (m + 1) * 26 + (n % 26 + 1));
    }
}

/// Decoding then encoding gives the string back: every non-empty lowercase
/// string is the canonical code of the integer it decodes to.
pub proof fn lemma_base26_canonical(s: Seq<char>)
    requires
        s.len() >= 1,
        all_lower(s),
    ensures
        decode26(s) >= 0,
        encode26(decode26(s) as nat) == s,
    decreases s.len(),
{
    lemma_val26_nonneg(s);
    let d = digit_of(s.last());
    assert(1 <= d <= 26);
    if s.len() == 1 {
        assert(s.drop_last() =~= Seq::<char>::empty());
        assert(val26(Seq::<char>::empty()) == 0);
        assert(val26(s) == d);
        assert(letter_of(d - 1) == s.last());
        assert(encode26((d - 1) as nat) =~= s);
    } else {
        let t = s.drop_last();
        assert(all_lower(t)) by {
            assert(forall|i: int| 0 <= i < s.len() - 1 ==> #[trigger] t[i] == s[i]);
        }
        lemma_val26_nonneg(t);
        lemma_base26_canonical(t);
        let n = val26(s) - 1;
        assert(n == val26(t) * 26 + (d - 1));
        lemma_fundamental_div_mod_converse(n, 26, val26(t), d - 1);
        assert(n >= 26);
        assert(encode26(n as nat) == encode26((val26(t) - 1) as nat).push(letter_of(d - 1)));
        assert(letter_of(d - 1) == s.last());
        assert(t.push(s.last()) =~= s);
    }
}

/// The value of a prefix never exceeds the value of the whole string.
pub proof fn lemma_val26_prefix_le(s: Seq<char>, i: int)
    requires
        0 <= i <= s.len(),
        all_lower(s),
    ensures
        val26(s.take(i)) <= val26(s),
    decreases s.len() - i,
{
    assert(all_lower(s.take(i))) by {
        assert(forall|j: int| 0 <= j < i ==> #[trigger] s.take(i)[j] == s[j]);
    }
    if i < s.len() {
        lemma_val26_prefix_le(s, i + 1);
        assert(s.take(i + 1).drop_last() =~= s.take(i));
        assert(s.take(i + 1).last() == s[i]);
        lemma_val26_nonneg(s.take(i));
        assert(val26(s.take(i + 1)) == val26(s.take(i)) * 26 + digit_of(s[i]));
    } else {
        assert(s.take(i) =~= s);
    }
}

fn letter(d: u8) -> (c: char)
    requires
        d < 26,
    ensures
        c == letter_of(d as int),
{
    (97 + d) as char
}

/// The code of `num`, as a vector of letters.
pub fn encode26_chars(num: usize) -> (r: Vec<char>)
    ensures
        r@ == encode26(num as nat),
    decreases num,
{
    if num < 26 {
        let mut v: Vec<char> = Vec::new();
        v.push(letter(num as u8));
        proof {
            assert(v@ =~= encode26(num as nat));
        }
        v
    } else {
        let mut v = encode26_chars(num / 26 - 1);
        v.push(letter((num % 26) as u8));
        proof {
            assert(v@ =~= encode26(num as nat));
        }
        v
    }
}

/// The bijective base-26 code of `num`, lowest code "a" for 0.
pub fn usize_to_base26(num: usize) -> (r: String)
    ensures
        r@ == encode26(num as nat),
{
    let v = encode26_chars(num);
    chars_to_string(v)
}

/// The integer encoded by a non-empty lowercase code that fits the machine.
pub fn base26_to_usize(s: &str) -> (r: usize)
    requires
        s@.len() > 0,
        all_lower(s@),
        decode26(s@) <= usize::MAX,
    ensures
        r == decode26(s@),
{
    match base26_code_index(s) {
        Some(i) => i,
        None => {
            proof {
                assert(false);
            }
            0
        },
    }
}

/// Decodes a code string, rejecting empty or non-lowercase input and values
/// too large for the machine.
pub fn base26_code_index(s: &str) -> (r: Option<usize>)
    ensures
        match r {
            Some(i) => s@.len() > 0 && all_lower(s@) && i == decode26(s@),
            None => !(s@.len() > 0 && all_lower(s@) && decode26(s@) <= usize::MAX),
        },
{
    if !s.is_ascii() {
        proof {
            assert(!vstd::utf8::is_ascii_chars(s@));
            let i = choose|i: int| 0 <= i < s@.len() && !('\0' <= #[trigger] s@[i] <= '\u{7f}');
            assert(!is_lower(s@[i]));
        }
        return None;
    }
    let b = s.as_bytes();
    proof {
        vstd::string::is_ascii_spec_bytes(s);
    }
    let n = b.len();
    if n == 0 {
        return None;
    }
    let c0 = b[0];
    if c0 < 97 || c0 > 122 {
        proof {
            assert(b@[0] == s@[0] as u8);
            assert(!is_lower(s@[0]));
        }
        return None;
    }
    let mut m: usize = (c0 - 97) as usize;
    proof {
        assert(s@.take(1).drop_last() =~= Seq::<char>::empty());
        assert(val26(Seq::<char>::empty()) == 0);
        assert(s@.take(1).last() == s@[0]);
        assert('\0' <= s@[0] <= '\u{7f}');
        assert(b@[0] == s@[0] as u8);
        assert(c0 as int == s@[0] as int);
        assert(m == decode26(s@.take(1)));
    }
    let mut i: usize = 1;
    while i < n
        invariant
            1 <= i <= n,
            n == s@.len(),
            n == b@.len(),
            b@ =~= Seq::new(s@.len(), |j: int| s@[j] as u8),
            vstd::utf8::is_ascii_chars(s@),
            all_lower(s@.take(i as int)),
            m == decode26(s@.take(i as int)),
        decreases n - i,
    {
        let c = b[i];
        if c < 97 || c > 122 {
            proof {
                assert(b@[i as int] == s@[i as int] as u8);
                assert(!is_lower(s@[i as int]));
            }
            return None;
        }
        let e = (c - 97) as usize;
        proof {
            assert(b@[i as int] == s@[i as int] as u8);
            assert(is_lower(s@[i as int]));
            assert(digit_of(s@[i as int]) == e + 1);
            assert(s@.take(i + 1).drop_last() =~= s@.take(i as int));
            assert(s@.take(i + 1).last() == s@[i as int]);
            assert(all_lower(s@.take(i + 1))) by {
                assert(forall|j: int|
                    0 <= j < i + 1 ==> #[trigger] s@.take(i + 1)[j] == s@[j]);
            }
            assert(val26(s@.take(i + 1)) == (m + 1) * 26 + (e + 1));
        }
        let q = (usize::MAX - 26 - e) / 26;
        if m > q {
            proof {
                lemma_fundamental_div_mod((usize::MAX - 26 - e) as int, 26);
                assert(26 * (m as int) >= 26 * (q + 1));
                assert(decode26(s@.take(i + 1)) > usize::MAX);
                if all_lower(s@) {
                    lemma_val26_prefix_le(s@, i + 1);
                    assert(decode26(s@) > usize::MAX);
                }
            }
            return None;
        }
        proof {
            lemma_fundamental_div_mod((usize::MAX - 26 - e) as int, 26);
            assert(26 * (m as int) <= 26 * (q as int));
        }
        m = 26 * m + 26 + e;
        i += 1;
    }
    proof {
        assert(s@.take(n as int) =~= s@);
    }
    Some(m)
}

/// Whether a string holds exactly the given lowercase characters.
pub fn str_eq_chars(s: &str, v: &Vec<char>) -> (r: bool)
    requires
        all_lower(v@),
    ensures
        r == (s@ == v@),
{
    if !s.is_ascii() {
        proof {
            if s@ == v@ {
                assert(vstd::utf8::is_ascii_chars(s@)) by {
                    assert(forall|i: int| 0 <= i < s@.len() ==> is_lower(#[trigger] s@[i]));
                }
                assert(false);
            }
        }
        return false;
    }
    let b = s.as_bytes();
    proof {
        vstd::string::is_ascii_spec_bytes(s);
    }
    let n = b.len();
    if n != v.len() {
        return false;
    }
    let mut i: usize = 0;
    while i < n
        invariant
            0 <= i <= n,
            n == s@.len(),
            n == b@.len(),
            n == v@.len(),
            b@ =~= Seq::new(s@.len(), |j: int| s@[j] as u8),
            vstd::utf8::is_ascii_chars(s@),
            all_lower(v@),
            forall|j: int| 0 <= j < i ==> s@[j] == v@[j],
        decreases n - i,
    {
        let bi = b[i];
        let ci = v[i] as u32;
        proof {
            assert(b@[i as int] == s@[i as int] as u8);
            assert('\0' <= s@[i as int] <= '\u{7f}');
            assert(is_lower(v@[i as int]));
        }
        if (bi as u32) != ci {
            proof {
                if s@[i as int] == v@[i as int] {
                    assert(false);
                }
            }
            return false;
        }
        proof {
            assert(s@[i as int] == v@[i as int]);
        }
        i += 1;
    }
    proof {
        assert(s@ =~= v@);
    }
    true
}

} // verus!
