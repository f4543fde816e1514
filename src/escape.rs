//! The two escaping rules of the line protocol.

use vstd::prelude::*;

verus! {

/// Which characters a rule puts a backslash in front of.
#[derive(Clone, Copy, Debug, PartialEq, Eq)]
pub enum EscapeRule {
    /// Measurement names, tag keys, tag values and field keys: space, comma and `=`.
    Identifier,
    /// Field values, which stand between double quotes: only `"`.
    QuotedString,
}

pub open spec fn is_escaped_by(rule: EscapeRule, c: char) -> bool {
    match rule {
        EscapeRule::Identifier => c == ' ' || c == ',' || c == '=',
        EscapeRule::QuotedString => c == '"',
    }
}

/// What one input character becomes.
pub open spec fn escape_char(rule: EscapeRule, c: char) -> Seq<char> {
    if is_escaped_by(rule, c) {
        seq!['\\', c]
    } else {
        seq![c]
    }
}

/// The escaped form of `s`: each character in turn, backslashes themselves untouched.
pub open spec fn escaped(rule: EscapeRule, s: Seq<char>) -> Seq<char>
    decreases s.len(),
{
    if s.len() == 0 {
        Seq::empty()
    } else {
        escaped(rule, s.drop_last()) + escape_char(rule, s.last())
    }
}

pub open spec fn identifier_escaped(s: Seq<char>) -> Seq<char> {
    escaped(EscapeRule::Identifier, s)
}

pub open spec fn quoted_escaped(s: Seq<char>) -> Seq<char> {
    escaped(EscapeRule::QuotedString, s)
}

/// How many characters of `s` the rule escapes.
pub open spec fn count_escaped(rule: EscapeRule, s: Seq<char>) -> nat
    decreases s.len(),
{
    if s.len() == 0 {
        0
    } else {
        count_escaped(rule, s.drop_last()) + if is_escaped_by(rule, s.last()) {
            1nat
        } else {
            0nat
        }
    }
}

/// Reads an escaped text back: a backslash in front of a character of the
/// rule is dropped, every other character is kept.
pub open spec fn unescaped(rule: EscapeRule, r: Seq<char>) -> Seq<char>
    decreases r.len(),
{
    if r.len() == 0 {
        Seq::empty()
    } else if r.len() >= 2 && r[0] == '\\' && is_escaped_by(rule, r[1]) {
        seq![r[1]] + unescaped(rule, r.drop_first().drop_first())
    } else {
        seq![r[0]] + unescaped(rule, r.drop_first())
    }
}

proof fn lemma_escaped_concat(rule: EscapeRule, a: Seq<char>, b: Seq<char>)
    ensures
        escaped(rule, a + b) == escaped(rule, a) + escaped(rule, b),
        count_escaped(rule, a + b) == count_escaped(rule, a) + count_escaped(rule, b),
    decreases b.len(),
{
    if b.len() == 0 {
        assert(a + b =~= a);
        assert(escaped(rule, a) + escaped(rule, b) =~= escaped(rule, a));
    } else {
        lemma_escaped_concat(rule, a, b.drop_last());
        assert((a + b).drop_last() =~= a + b.drop_last());
        assert((a + b).last() == b.last());
    }
}

proof fn lemma_escaped_cons(rule: EscapeRule, s: Seq<char>)
    requires
        s.len() > 0,
    ensures
        escaped(rule, s) == escape_char(rule, s[0]) + escaped(rule, s.drop_first()),
{
    let h = seq![s[0]];
    assert(s =~= h + s.drop_first());
    lemma_escaped_concat(rule, h, s.drop_first());
    assert(h.drop_last() =~= Seq::<char>::empty());
    assert(escaped(rule, h.drop_last()) =~= Seq::<char>::empty());
    assert(h.last() == s[0]);
    assert(escaped(rule, h) =~= escape_char(rule, s[0]));
}

proof fn lemma_escaped_starts_plain(rule: EscapeRule, s: Seq<char>)
    requires
        escaped(rule, s).len() > 0,
    ensures
        !is_escaped_by(rule, escaped(rule, s)[0]),
{
    if s.len() > 0 {
        lemma_escaped_cons(rule, s);
    }
}

/// Escaping loses nothing: reading the escaped text back gives the input, so
/// no character but the escaped ones is altered, and backslashes already in
/// the input stay as they are.
pub proof fn lemma_escape_round_trip(rule: EscapeRule, s: Seq<char>)
    ensures
        unescaped(rule, escaped(rule, s)) == s,
    decreases s.len(),
{
    if s.len() == 0 {
        assert(escaped(rule, s) =~= Seq::<char>::empty());
    } else {
        let rest = s.drop_first();
        let r = escaped(rule, s);
        lemma_escaped_cons(rule, s);
        lemma_escape_round_trip(rule, rest);
        if is_escaped_by(rule, s[0]) {
            assert(r.drop_first().drop_first() =~= escaped(rule, rest));
        } else {
            assert(r.drop_first() =~= escaped(rule, rest));
            if r.len() >= 2 {
                lemma_escaped_starts_plain(rule, rest);
                assert(r[1] == escaped(rule, rest)[0]);
            }
        }
        assert(s =~= seq![s[0]] + rest);
    }
}

/// The escaped text is longer than the input by one backslash for each
/// character that the rule escapes.
pub proof fn lemma_escape_length(rule: EscapeRule, s: Seq<char>)
    ensures
        escaped(rule, s).len() == s.len() + count_escaped(rule, s),
    decreases s.len(),
{
    if s.len() > 0 {
        lemma_escape_length(rule, s.drop_last());
    }
}

/// In the escaped text every character of the rule has a backslash right
/// in front of it.
pub proof fn lemma_escaped_chars_follow_backslash(rule: EscapeRule, s: Seq<char>)
    ensures
        forall|j: int|
            0 <= j < escaped(rule, s).len() && is_escaped_by(rule, #[trigger] escaped(rule, s)[j])
                ==> j > 0 && escaped(rule, s)[j - 1] == '\\',
    decreases s.len(),
{
    if s.len() > 0 {
        lemma_escaped_chars_follow_backslash(rule, s.drop_last());
        let p = escaped(rule, s.drop_last());
        let r = escaped(rule, s);
        assert forall|j: int| 0 <= j < r.len() && is_escaped_by(rule, #[trigger] r[j]) implies j > 0
            && r[j - 1] == '\\' by {
            if j < p.len() {
                assert(r[j] == p[j]);
                assert(r[j - 1] == p[j - 1]);
            }
        }
    }
}

proof fn lemma_escape_plain(rule: EscapeRule, s: Seq<char>)
    requires
        count_escaped(rule, s) == 0,
    ensures
        escaped(rule, s) == s,
    decreases s.len(),
{
    if s.len() > 0 {
        lemma_escape_plain(rule, s.drop_last());
        assert(s.drop_last().push(s.last()) =~= s);
    }
}

proof fn lemma_count_of_escaped(rule: EscapeRule, s: Seq<char>)
    ensures
        count_escaped(rule, escaped(rule, s)) == count_escaped(rule, s),
    decreases s.len(),
{
    if s.len() > 0 {
        let c = s.last();
        lemma_count_of_escaped(rule, s.drop_last());
        lemma_escaped_concat(rule, escaped(rule, s.drop_last()), escape_char(rule, c));
        let e = escape_char(rule, c);
        assert(escaped(rule, s) == escaped(rule, s.drop_last()) + e);
        let b = seq!['\\'];
        assert(count_escaped(rule, Seq::<char>::empty()) == 0);
        if is_escaped_by(rule, c) {
            assert(e.drop_last() =~= b);
            assert(b.drop_last() =~= Seq::<char>::empty());
            assert(count_escaped(rule, b) == 0);
            assert(count_escaped(rule, e) == 1);
        } else {
            assert(e.drop_last() =~= Seq::<char>::empty());
            assert(count_escaped(rule, e) == 0);
        }
    }
}

/// Escaping twice gives the same text as escaping once exactly when the
/// input holds no character of the rule; so it is never idempotent on a text
/// with a backslash next to such a character.
pub proof fn lemma_escape_idempotent(rule: EscapeRule, s: Seq<char>)
    ensures
        escaped(rule, escaped(rule, s)) == escaped(rule, s) <==> count_escaped(rule, s) == 0,
{
    let e = escaped(rule, s);
    lemma_count_of_escaped(rule, s);
    lemma_escape_length(rule, e);
    if count_escaped(rule, s) == 0 {
        lemma_escape_plain(rule, s);
    }
}

/// Relies on String::push: the character is appended at the end.
#[verifier::external_body]
fn push_char(s: &mut String, c: char)
    ensures
        final(s)@ == old(s)@.push(c),
{
    s.push(c)
}

/// Appends the escaped form of `input` to `out`.
pub fn push_escaped(out: &mut String, input: &str, rule: EscapeRule)
    ensures
        final(out)@ == old(out)@ + escaped(rule, input@),
{
    let ghost start = out@;
    broadcast use vstd::string::axiom_spec_iter;
    for c in iter: input.chars()
        invariant
            iter.seq() == input@,
            out@ == start + escaped(rule, input@.subrange(0, iter.index() as int)),
    {
        proof {
            let i = iter.index() as int;
            let p = input@.subrange(0, i + 1);
            assert(p.drop_last() =~= input@.subrange(0, i));
            assert(p.last() == c);
        }
        if is_special(rule, c) {
            push_char(out, '\\');
        }
        push_char(out, c);
    }
    assert(input@.subrange(0, input@.len() as int) =~= input@);
}

fn is_special(rule: EscapeRule, c: char) -> (r: bool)
    ensures
        r == is_escaped_by(rule, c),
{
    match rule {
        EscapeRule::Identifier => c == ' ' || c == ',' || c == '=',
        EscapeRule::QuotedString => c == '"',
    }
}

/// Escapes spaces, commas and equal signs with a backslash.
pub fn escape_identifier(input: &str) -> (r: String)
    ensures
        r@ == identifier_escaped(input@),
{
    let mut out = String::new();
    push_escaped(&mut out, input, EscapeRule::Identifier);
    out
}

/// Escapes double quotes with a backslash and leaves every other character alone.
pub fn escape_field_value(input: &str) -> (r: String)
    ensures
        r@ == quoted_escaped(input@),
{
    let mut out = String::new();
    push_escaped(&mut out, input, EscapeRule::QuotedString);
    out
}

} // verus!
