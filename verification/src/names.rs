//! How the bot turns a name typed in a command into the name under which a
//! company or a tier is kept, and the names of the roles and channels that it
//! creates for a company.
use vstd::prelude::*;

verus! {

/// What `str::to_lowercase` returns for a string: the Unicode lowercase
/// mapping of each of its characters.
pub uninterp spec fn lowercase_of(s: Seq<char>) -> Seq<char>;

/// What `str::to_uppercase` returns for a string: the Unicode uppercase
/// mapping of each of its characters.
pub uninterp spec fn uppercase_of(s: Seq<char>) -> Seq<char>;

/// Calls `str::to_lowercase`; its result is named `lowercase_of` of the input.
#[verifier::external_body]
fn to_lowercase(s: &str) -> (r: String)
    ensures
        r@ == lowercase_of(s@),
{
    s.to_lowercase()
}

/// Calls `str::to_uppercase`; its result is named `uppercase_of` of the input.
#[verifier::external_body]
fn to_uppercase(s: &str) -> (r: String)
    ensures
        r@ == uppercase_of(s@),
{
    s.to_uppercase()
}

/// Whether two strings hold the same characters.
pub(crate) fn str_eq(a: &str, b: &str) -> (r: bool)
    ensures
        r == (a@ == b@),
{
    let n = a.unicode_len();
    let m = b.unicode_len();
    if n != m {
        return false;
    }
    let mut i: usize = 0;
    while i < n
        invariant
            n == a@.len(),
            m == b@.len(),
            n == m,
            i <= n,
            forall|j: int| 0 <= j < i ==> a@[j] == b@[j],
        decreases n - i,
    {
        if a.get_char(i) != b.get_char(i) {
            return false;
        }
        i = i + 1;
    }
    assert(a@ =~= b@);
    true
}

/// Calls `String::push`, which appends one character.
#[verifier::external_body]
pub(crate) fn push_char(s: &mut String, c: char)
    ensures
        final(s)@ == old(s)@.push(c),
{
    s.push(c)
}

/// The string with every double quote dropped.
pub open spec fn without_quotes(s: Seq<char>) -> Seq<char>
    decreases s.len(),
{
    if s.len() == 0 {
        Seq::empty()
    } else if s.last() == '"' {
        without_quotes(s.drop_last())
    } else {
        without_quotes(s.drop_last()).push(s.last())
    }
}

/// The string with every space turned into a dash.
pub open spec fn spaces_to_dashes(s: Seq<char>) -> Seq<char> {
    s.map_values(|c: char| if c == ' ' { '-' } else { c })
}

/// The name under which the bot keeps a company or creates a tier role:
/// lowercased, without double quotes, with dashes for spaces.
pub open spec fn normalized(s: Seq<char>) -> Seq<char> {
    spaces_to_dashes(without_quotes(lowercase_of(s)))
}

/// Drops every double quote.
pub fn strip_quotes(s: &str) -> (r: String)
    ensures
        r@ == without_quotes(s@),
{
    let n = s.unicode_len();
    let mut out = String::new();
    let mut i: usize = 0;
    while i < n
        invariant
            n == s@.len(),
            i <= n,
            out@ == without_quotes(s@.take(i as int)),
        decreases n - i,
    {
        let c = s.get_char(i);
        assert(s@.take(i + 1).drop_last() =~= s@.take(i as int));
        if c != '"' {
            push_char(&mut out, c);
        }
        i = i + 1;
    }
    assert(s@.take(n as int) =~= s@);
    out
}

/// Turns every space into a dash.
pub fn dash_spaces(s: &str) -> (r: String)
    ensures
        r@ == spaces_to_dashes(s@),
{
    let n = s.unicode_len();
    let mut out = String::new();
    let mut i: usize = 0;
    while i < n
        invariant
            n == s@.len(),
            i <= n,
            out@ =~= spaces_to_dashes(s@.take(i as int)),
        decreases n - i,
    {
        let c = s.get_char(i);
        if c == ' ' {
            push_char(&mut out, '-');
        } else {
            push_char(&mut out, c);
        }
        assert(spaces_to_dashes(s@.take(i + 1)) =~= spaces_to_dashes(s@.take(i as int)).push(
            if c == ' ' { '-' } else { c }));
        i = i + 1;
    }
    assert(s@.take(n as int) =~= s@);
    out
}

/// The name that a command argument stands for: lowercased, without double
/// quotes, with dashes for spaces.
pub fn normalize_name(name: &str) -> (r: String)
    ensures
        r@ == normalized(name@),
{
    let lower = to_lowercase(name);
    let unquoted = strip_quotes(lower.as_str());
    dash_spaces(unquoted.as_str())
}

/// A tier name as the tier commands look it up: in upper case.
pub fn upper_name(name: &str) -> (r: String)
    ensures
        r@ == uppercase_of(name@),
{
    to_uppercase(name)
}

/// The names of what the bot creates on Discord for a new company.
pub struct CompanyNames {
    /// The company's role: the name lowercased, without double quotes.
    pub role: String,
    /// Its category: the role name with dashes for spaces.
    pub category: String,
    /// Its text channel: the category name followed by `-text`.
    pub text: String,
    /// Its voice channel: the category name followed by `-voice`.
    pub voice: String,
}

/// The names of the role, category and channels of a company called `name`.
pub fn company_names(name: &str) -> (r: CompanyNames)
    ensures
        r.role@ == without_quotes(lowercase_of(name@)),
        r.category@ == normalized(name@),
        r.text@ == normalized(name@) + "-text"@,
        r.voice@ == normalized(name@) + "-voice"@,
{
    let lower = to_lowercase(name);
    let role = strip_quotes(lower.as_str());
    let category = dash_spaces(role.as_str());
    let text = category.clone().concat("-text");
    let voice = category.clone().concat("-voice");
    CompanyNames { role, category, text, voice }
}

/// Facts of `without_quotes`: no quote is left, and every other character of
/// the input is kept.
pub proof fn lemma_without_quotes(s: Seq<char>)
    ensures
        !without_quotes(s).contains('"'),
        forall|c: char| c != '"' ==> (s.contains(c) <==> #[trigger] without_quotes(s).contains(c)),
    decreases s.len(),
{
    if s.len() > 0 {
        lemma_without_quotes(s.drop_last());
        let r = without_quotes(s.drop_last());
        let w = without_quotes(s);
        assert forall|c: char| c != '"' implies (s.contains(c) <==> #[trigger] w.contains(c)) by {
            if s.contains(c) {
                let i = choose|i: int| 0 <= i < s.len() && s[i] == c;
                if i < s.len() - 1 {
                    assert(s.drop_last()[i] == c);
                    assert(s.drop_last().contains(c));
                    assert(r.contains(c));
                    let j = choose|j: int| 0 <= j < r.len() && r[j] == c;
                    if s.last() == '"' {
                        assert(w == r);
                    } else {
                        assert(w == r.push(s.last()));
                        assert(w[j] == c);
                    }
                } else {
                    assert(w == r.push(c));
                    assert(w[r.len() as int] == c);
                }
            }
            if w.contains(c) {
                let i = choose|i: int| 0 <= i < w.len() && w[i] == c;
                if s.last() == '"' {
                    assert(w == r);
                    assert(r.contains(c));
                } else if i < r.len() {
                    assert(w == r.push(s.last()));
                    assert(r[i] == c);
                    assert(r.contains(c));
                } else {
                    assert(w == r.push(s.last()));
                    assert(s[s.len() - 1] == c);
                }
                if r.contains(c) {
                    assert(s.drop_last().contains(c));
                    let j = choose|j: int| 0 <= j < s.drop_last().len() && s.drop_last()[j] == c;
                    assert(s[j] == c);
                }
            }
        }
        if without_quotes(s).contains('"') {
            let i = choose|i: int| 0 <= i < without_quotes(s).len() && without_quotes(s)[i] == '"';
            if s.last() != '"' && i == r.len() {
            } else {
                assert(r[i] == '"');
            }
        }
    }
}

/// Law: a normalised name holds no double quote and no space.
pub proof fn law_normalized_has_no_quote_or_space(s: Seq<char>)
    ensures
        !normalized(s).contains('"'),
        !normalized(s).contains(' '),
{
    let u = without_quotes(lowercase_of(s));
    lemma_without_quotes(lowercase_of(s));
    let n = normalized(s);
    if n.contains('"') {
        let i = choose|i: int| 0 <= i < n.len() && n[i] == '"';
        assert(u[i] == '"');
    }
    if n.contains(' ') {
        let i = choose|i: int| 0 <= i < n.len() && n[i] == ' ';
    }
}

/// Law: dropping quotes and turning spaces into dashes changes nothing more
/// on a name that was already normalised.
pub proof fn law_normalizing_steps_are_idempotent(s: Seq<char>)
    ensures
        without_quotes(normalized(s)) == normalized(s),
        spaces_to_dashes(normalized(s)) == normalized(s),
{
    law_normalized_has_no_quote_or_space(s);
    lemma_without_quotes_of_quote_free(normalized(s));
    assert(spaces_to_dashes(normalized(s)) =~= normalized(s));
}

pub proof fn lemma_without_quotes_of_quote_free(s: Seq<char>)
    requires
        !s.contains('"'),
    ensures
        without_quotes(s) == s,
    decreases s.len(),
{
    if s.len() > 0 {
        assert(!s.drop_last().contains('"')) by {
            if s.drop_last().contains('"') {
                let i = choose|i: int| 0 <= i < s.drop_last().len() && s.drop_last()[i] == '"';
                assert(s[i] == '"');
            }
        }
        lemma_without_quotes_of_quote_free(s.drop_last());
        assert(s[s.len() - 1] != '"');
        assert(s.drop_last().push(s.last()) =~= s);
    }
}

/// Law: turning spaces into dashes changes spaces only: the length stays,
/// every space becomes a dash and every other character stays where it is.
pub proof fn law_spaces_to_dashes_changes_spaces_only(s: Seq<char>)
    ensures
        spaces_to_dashes(s).len() == s.len(),
        forall|i: int| 0 <= i < s.len() && s[i] != ' ' ==> #[trigger] spaces_to_dashes(s)[i] == s[i],
        forall|i: int| 0 <= i < s.len() && s[i] == ' ' ==> #[trigger] spaces_to_dashes(s)[i] == '-',
{
}

/// Law: dropping quotes drops quotes only: it works piece by piece, drops a
/// lone quote and keeps any other lone character.
pub proof fn law_without_quotes_drops_quotes_only(a: Seq<char>, b: Seq<char>, c: char)
    ensures
        without_quotes(a + b) == without_quotes(a) + without_quotes(b),
        without_quotes(seq![c]) == if c == '"' {
            Seq::<char>::empty()
        } else {
            seq![c]
        },
    decreases b.len(),
{
    let one = seq![c];
    assert(one.drop_last() =~= Seq::<char>::empty());
    assert(one.last() == c);
    assert(without_quotes(one.drop_last()) =~= Seq::<char>::empty());
    if c != '"' {
        assert(Seq::<char>::empty().push(c) =~= one);
    }
    if b.len() == 0 {
        assert(a + b =~= a);
        assert(without_quotes(b) =~= Seq::<char>::empty());
        assert(without_quotes(a) + without_quotes(b) =~= without_quotes(a));
    } else {
        law_without_quotes_drops_quotes_only(a, b.drop_last(), c);
        let ab = a + b;
        assert(ab.drop_last() =~= a + b.drop_last());
        assert(ab.last() == b.last());
        if b.last() == '"' {
            assert(without_quotes(ab) == without_quotes(ab.drop_last()));
            assert(without_quotes(b) == without_quotes(b.drop_last()));
        } else {
            assert(without_quotes(ab) == without_quotes(ab.drop_last()).push(ab.last()));
            assert(without_quotes(b) == without_quotes(b.drop_last()).push(b.last()));
            assert(without_quotes(a) + without_quotes(b.drop_last()).push(b.last()) =~= (
            without_quotes(a) + without_quotes(b.drop_last())).push(b.last()));
        }
    }
}

/// Law: normalising a name changes nothing but case, quotes and spaces: a
/// name whose lowercase form holds no quote and no space is kept as that
/// lowercase form, and otherwise every character other than a quote or a
/// space is kept, with spaces (and only spaces) turned into dashes.
pub proof fn law_normalized_changes_only_quotes_and_spaces(s: Seq<char>)
    ensures
        (!lowercase_of(s).contains('"') && !lowercase_of(s).contains(' ')) ==> normalized(s)
            == lowercase_of(s),
        normalized(s).len() == without_quotes(lowercase_of(s)).len(),
        forall|c: char|
            c != '"' && c != ' ' && c != '-' ==> (lowercase_of(s).contains(c) <==> #[trigger] normalized(
                s,
            ).contains(c)),
{
    let l = lowercase_of(s);
    let u = without_quotes(l);
    let n = normalized(s);
    lemma_without_quotes(l);
    law_spaces_to_dashes_changes_spaces_only(u);
    if !l.contains('"') && !l.contains(' ') {
        lemma_without_quotes_of_quote_free(l);
        assert(n =~= l);
    }
    assert forall|c: char| c != '"' && c != ' ' && c != '-' implies (l.contains(c)
        <==> #[trigger] n.contains(c)) by {
        if u.contains(c) {
            let i = choose|i: int| 0 <= i < u.len() && u[i] == c;
            assert(n[i] == c);
        }
        if n.contains(c) {
            let i = choose|i: int| 0 <= i < n.len() && n[i] == c;
            assert(u[i] == c);
        }
    }
}

} // verus!
