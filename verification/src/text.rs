//! Text that the bot writes: numbers in decimal, lists joined by a separator,
//! and messages trimmed of surrounding white space.
use vstd::prelude::*;
use crate::names::push_char;

verus! {

/// The character of a decimal digit.
pub open spec fn digit_char(d: nat) -> char {
    if d == 0 {
        '0'
    } else if d == 1 {
        '1'
    } else if d == 2 {
        '2'
    } else if d == 3 {
        '3'
    } else if d == 4 {
        '4'
    } else if d == 5 {
        '5'
    } else if d == 6 {
        '6'
    } else if d == 7 {
        '7'
    } else if d == 8 {
        '8'
    } else {
        '9'
    }
}

/// A natural number written in decimal, without leading zeros.
pub open spec fn decimal(n: nat) -> Seq<char>
    decreases n,
{
    if n < 10 {
        seq![digit_char(n)]
    } else {
        decimal(n / 10).push(digit_char(n % 10))
    }
}

fn digit(d: u64) -> (r: char)
    requires
        d < 10,
    ensures
        r == digit_char(d as nat),
{
    if d == 0 {
        '0'
    } else if d == 1 {
        '1'
    } else if d == 2 {
        '2'
    } else if d == 3 {
        '3'
    } else if d == 4 {
        '4'
    } else if d == 5 {
        '5'
    } else if d == 6 {
        '6'
    } else if d == 7 {
        '7'
    } else if d == 8 {
        '8'
    } else {
        '9'
    }
}

/// Writes `n` in decimal, as Discord ids are shown.
pub fn decimal_string(n: u64) -> (r: String)
    ensures
        r@ == decimal(n as nat),
    decreases n,
{
    if n < 10 {
        let mut s = String::new();
        push_char(&mut s, digit(n));
        assert(s@ =~= seq![digit_char(n as nat)]);
        s
    } else {
        let mut s = decimal_string(n / 10);
        push_char(&mut s, digit(n % 10));
        s
    }
}

/// The strings one after the other, with `sep` between two neighbours.
pub open spec fn joined(words: Seq<Seq<char>>, sep: Seq<char>) -> Seq<char>
    decreases words.len(),
{
    if words.len() == 0 {
        Seq::empty()
    } else if words.len() == 1 {
        words[0]
    } else {
        joined(words.drop_last(), sep) + sep + words.last()
    }
}

/// Whether `w` stands in `s` from position `p` on, character for character.
pub open spec fn occurs_at(s: Seq<char>, w: Seq<char>, p: int) -> bool {
    0 <= p && p + w.len() <= s.len() && s.subrange(p, p + w.len()) == w
}

/// Law: every string of a joined list occurs in the result, at some
/// position, character for character.
pub proof fn law_joined_contains_each_word(words: Seq<Seq<char>>, sep: Seq<char>, k: int)
    requires
        0 <= k < words.len(),
    ensures
        exists|p: int| #[trigger] occurs_at(joined(words, sep), words[k], p),
    decreases words.len(),
{
    let j = joined(words, sep);
    let w = words[k];
    if words.len() == 1 {
        assert(j == words[0]);
        assert(j.subrange(0, w.len() as int) =~= w);
        assert(occurs_at(j, w, 0));
    } else {
        let front = joined(words.drop_last(), sep);
        assert(j == front + sep + words.last());
        if k == words.len() - 1 {
            let p: int = (front.len() + sep.len()) as int;
            assert(j.subrange(p, p + w.len()) =~= w);
            assert(occurs_at(j, w, p));
        } else {
            law_joined_contains_each_word(words.drop_last(), sep, k);
            assert(words.drop_last()[k] == w);
            let p = choose|p: int| #[trigger] occurs_at(front, w, p);
            assert(j.subrange(p, p + w.len()) =~= front.subrange(p, p + w.len()));
            assert(occurs_at(j, w, p));
        }
    }
}

/// Joins the strings with `sep` between two neighbours.
pub fn join(words: &Vec<String>, sep: &str) -> (r: String)
    ensures
        r@ == joined(words@.map_values(|w: String| w@), sep@),
{
    let ghost ws = words@.map_values(|w: String| w@);
    let mut out = String::new();
    let n = words.len();
    let mut i: usize = 0;
    while i < n
        invariant
            n == words@.len(),
            ws == words@.map_values(|w: String| w@),
            i <= n,
            out@ == joined(ws.take(i as int), sep@),
        decreases n - i,
    {
        assert(ws.take(i + 1).drop_last() =~= ws.take(i as int));
        assert(ws.take(i + 1).last() == words@[i as int]@);
        if i > 0 {
            out.append(sep);
        }
        out.append(words[i].as_str());
        proof {
            let t = ws.take(i + 1);
            if i == 0 {
                assert(t[0] == ws[0]);
                assert(joined(t, sep@) == t[0]);
                assert(out@ =~= ws[0]);
            } else {
                assert(joined(t, sep@) == joined(t.drop_last(), sep@) + sep@ + t.last());
                assert(out@ =~= joined(t.drop_last(), sep@) + sep@ + t.last());
            }
        }
        i = i + 1;
    }
    assert(ws.take(n as int) =~= ws);
    out
}

/// Writes each id in decimal and joins them with `sep`.
pub fn join_ids(ids: &Vec<u64>, sep: &str) -> (r: String)
    ensures
        r@ == joined(ids@.map_values(|id: u64| decimal(id as nat)), sep@),
{
    let mut words: Vec<String> = Vec::new();
    let n = ids.len();
    let mut i: usize = 0;
    while i < n
        invariant
            n == ids@.len(),
            i <= n,
            words@.map_values(|w: String| w@) =~= ids@.take(i as int).map_values(
                |id: u64| decimal(id as nat),
            ),
        decreases n - i,
    {
        let ghost before = words@;
        let w = decimal_string(ids[i]);
        words.push(w);
        assert(ids@.take(i + 1) =~= ids@.take(i as int).push(ids@[i as int]));
        assert(words@.map_values(|w: String| w@) =~= before.map_values(|w: String| w@).push(
            decimal(ids@[i as int] as nat),
        ));
        i = i + 1;
    }
    assert(ids@.take(n as int) =~= ids@);
    join(&words, sep)
}

/// Whether a character is white space in the sense of `char::is_whitespace`:
/// it has the Unicode `White_Space` property, which these code points have.
pub open spec fn is_white_space(c: char) -> bool {
    let v = c as int;
    ||| 0x09 <= v <= 0x0d
    ||| v == 0x20
    ||| v == 0x85
    ||| v == 0xa0
    ||| v == 0x1680
    ||| 0x2000 <= v <= 0x200a
    ||| v == 0x2028
    ||| v == 0x2029
    ||| v == 0x202f
    ||| v == 0x205f
    ||| v == 0x3000
}

/// Whether a character is white space.
fn char_is_whitespace(c: char) -> (r: bool)
    ensures
        r == is_white_space(c),
{
    match c {
        '\u{09}'..='\u{0d}' | ' ' | '\u{85}' | '\u{a0}' | '\u{1680}' | '\u{2000}'..='\u{200a}'
        | '\u{2028}' | '\u{2029}' | '\u{202f}' | '\u{205f}' | '\u{3000}' => true,
        _ => false,
    }
}

/// The string without its leading white space.
pub open spec fn trim_start(s: Seq<char>) -> Seq<char>
    decreases s.len(),
{
    if s.len() > 0 && is_white_space(s[0]) {
        trim_start(s.drop_first())
    } else {
        s
    }
}

/// The string without its trailing white space.
pub open spec fn trim_end(s: Seq<char>) -> Seq<char>
    decreases s.len(),
{
    if s.len() > 0 && is_white_space(s.last()) {
        trim_end(s.drop_last())
    } else {
        s
    }
}

/// The string without leading or trailing white space, as `str::trim` gives.
pub open spec fn trimmed(s: Seq<char>) -> Seq<char> {
    trim_end(trim_start(s))
}

proof fn lemma_trim_start_skip(s: Seq<char>, i: int)
    requires
        0 <= i <= s.len(),
        forall|j: int| 0 <= j < i ==> is_white_space(#[trigger] s[j]),
    ensures
        trim_start(s) == trim_start(s.subrange(i, s.len() as int)),
    decreases i,
{
    if i > 0 {
        assert(is_white_space(s[0]));
        let t = s.drop_first();
        assert forall|j: int| 0 <= j < i - 1 implies is_white_space(#[trigger] t[j]) by {
            assert(t[j] == s[j + 1]);
        }
        lemma_trim_start_skip(t, i - 1);
        assert(t.subrange(i - 1, t.len() as int) =~= s.subrange(i, s.len() as int));
    } else {
        assert(s.subrange(0, s.len() as int) =~= s);
    }
}

proof fn lemma_trim_end_skip(s: Seq<char>, e: int)
    requires
        0 <= e <= s.len(),
        forall|j: int| e <= j < s.len() ==> is_white_space(#[trigger] s[j]),
    ensures
        trim_end(s) == trim_end(s.subrange(0, e)),
    decreases s.len() - e,
{
    if e < s.len() {
        assert(is_white_space(s[s.len() - 1]));
        let t = s.drop_last();
        assert forall|j: int| e <= j < t.len() implies is_white_space(#[trigger] t[j]) by {
            assert(t[j] == s[j]);
        }
        lemma_trim_end_skip(t, e);
        assert(t.subrange(0, e) =~= s.subrange(0, e));
    } else {
        assert(s.subrange(0, e) =~= s);
    }
}

/// Drops leading and trailing white space.
pub fn trim(s: &str) -> (r: &str)
    ensures
        r@ == trimmed(s@),
{
    let n = s.unicode_len();
    let mut a: usize = 0;
    while a < n && char_is_whitespace(s.get_char(a))
        invariant
            n == s@.len(),
            a <= n,
            forall|j: int| 0 <= j < a ==> is_white_space(#[trigger] s@[j]),
        decreases n - a,
    {
        a = a + 1;
    }
    proof {
        lemma_trim_start_skip(s@, a as int);
    }
    let ghost rest = s@.subrange(a as int, n as int);
    assert(rest.len() == 0 || !is_white_space(rest[0]));
    assert(trim_start(s@) == rest);
    let mut e: usize = n;
    while e > a && char_is_whitespace(s.get_char(e - 1))
        invariant
            n == s@.len(),
            a <= e <= n,
            forall|j: int| e <= j < n ==> is_white_space(#[trigger] s@[j]),
        decreases e,
    {
        e = e - 1;
    }
    proof {
        let ghost k = (e - a) as int;
        assert forall|j: int| k <= j < rest.len() implies is_white_space(#[trigger] rest[j]) by {
            assert(rest[j] == s@[j + a]);
        }
        lemma_trim_end_skip(rest, k);
        let mid = rest.subrange(0, k);
        assert(mid =~= s@.subrange(a as int, e as int));
        if mid.len() > 0 {
            assert(mid.last() == s@[e - 1]);
        }
    }
    s.substring_char(a, e)
}

} // verus!
