use vstd::prelude::*;

verus! {

/// A character with the Unicode `White_Space` property.
pub open spec fn is_white_space(c: char) -> bool {
    let u = c as u32;
    ||| 0x09 <= u <= 0x0d
    ||| u == 0x20
    ||| u == 0x85
    ||| u == 0xa0
    ||| u == 0x1680
    ||| 0x2000 <= u <= 0x200a
    ||| u == 0x2028
    ||| u == 0x2029
    ||| u == 0x202f
    ||| u == 0x205f
    ||| u == 0x3000
}

/// The text without its leading white space.
pub open spec fn trim_start(s: Seq<char>) -> Seq<char>
    decreases s.len(),
{
    if s.len() > 0 && is_white_space(s[0]) {
        trim_start(s.drop_first())
    } else {
        s
    }
}

/// The text without its trailing white space.
pub open spec fn trim_end(s: Seq<char>) -> Seq<char>
    decreases s.len(),
{
    if s.len() > 0 && is_white_space(s.last()) {
        trim_end(s.drop_last())
    } else {
        s
    }
}

/// The text without leading and trailing white space.
pub open spec fn trimmed(s: Seq<char>) -> Seq<char> {
    trim_end(trim_start(s))
}

/// Relies on `str::trim`: the answer with leading and trailing `White_Space`
/// characters removed.
#[verifier::external_body]
fn trim_answer(s: &str) -> (r: &str)
    ensures
        r@ == trimmed(s@),
{
    s.trim()
}

/// The answers that confirm a question.
pub open spec fn affirmative(t: Seq<char>) -> bool {
    ||| t == "yes"@
    ||| t == "y"@
    ||| t == "j"@
    ||| t == "ja"@
    ||| t == "oui"@
    ||| t == "si"@
    ||| t == "da"@
}

fn same_text(a: &String, b: &str) -> (r: bool)
    ensures
        r == (a@ == b@),
{
    *a == b.to_owned()
}

/// Whether an already trimmed answer confirms; case matters.
pub fn is_affirmative_token(token: &str) -> (r: bool)
    ensures
        r == affirmative(token@),
{
    let t = token.to_owned();
    same_text(&t, "yes") || same_text(&t, "y") || same_text(&t, "j") || same_text(&t, "ja")
        || same_text(&t, "oui") || same_text(&t, "si") || same_text(&t, "da")
}

/// Whether a line read in answer to a question confirms it: the line is
/// trimmed, then compared with the affirmative tokens.
pub fn is_affirmative(answer: &str) -> (r: bool)
    ensures
        r == affirmative(trimmed(answer@)),
{
    is_affirmative_token(trim_answer(answer))
}

proof fn lemma_trim_start(pre: Seq<char>, rest: Seq<char>)
    requires
        forall|k: int| 0 <= k < pre.len() ==> is_white_space(#[trigger] pre[k]),
        rest.len() > 0,
        !is_white_space(rest[0]),
    ensures
        trim_start(pre + rest) == rest,
    decreases pre.len(),
{
    if pre.len() > 0 {
        assert((pre + rest)[0] == pre[0]);
        assert((pre + rest).drop_first() =~= pre.drop_first() + rest);
        lemma_trim_start(pre.drop_first(), rest);
    } else {
        assert(pre + rest =~= rest);
    }
}

proof fn lemma_trim_end(t: Seq<char>, suf: Seq<char>)
    requires
        forall|k: int| 0 <= k < suf.len() ==> is_white_space(#[trigger] suf[k]),
        t.len() > 0,
        !is_white_space(t.last()),
    ensures
        trim_end(t + suf) == t,
    decreases suf.len(),
{
    if suf.len() > 0 {
        assert((t + suf).last() == suf.last());
        assert((t + suf).drop_last() =~= t + suf.drop_last());
        lemma_trim_end(t, suf.drop_last());
    } else {
        assert(t + suf =~= t);
    }
}

/// Answers are read loosely: an affirmative token with any white space
/// around it still confirms.
pub proof fn lemma_surrounding_white_space(pre: Seq<char>, t: Seq<char>, suf: Seq<char>)
    requires
        forall|k: int| 0 <= k < pre.len() ==> is_white_space(#[trigger] pre[k]),
        forall|k: int| 0 <= k < suf.len() ==> is_white_space(#[trigger] suf[k]),
        affirmative(t),
    ensures
        trimmed(pre + t + suf) == t,
        affirmative(trimmed(pre + t + suf)),
{
    reveal_strlit("yes");
    reveal_strlit("y");
    reveal_strlit("j");
    reveal_strlit("ja");
    reveal_strlit("oui");
    reveal_strlit("si");
    reveal_strlit("da");
    assert(t.len() > 0);
    assert(!is_white_space(t[0]));
    assert(!is_white_space(t.last()));
    assert(pre + t + suf =~= pre + (t + suf));
    assert((t + suf)[0] == t[0]);
    lemma_trim_start(pre, t + suf);
    lemma_trim_end(t, suf);
}

} // verus!
