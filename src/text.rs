use vstd::prelude::*;

verus! {

/// Characters that the normalizer removes: newline, tab, carriage return and double quote.
pub open spec fn is_stripped(c: char) -> bool {
    c == '\n' || c == '\t' || c == '\r' || c == '"'
}

/// The text with every stripped character removed, all others kept in order.
pub open spec fn strip_controls(s: Seq<char>) -> Seq<char>
    decreases s.len(),
{
    if s.len() == 0 {
        s
    } else if is_stripped(s.last()) {
        strip_controls(s.drop_last())
    } else {
        strip_controls(s.drop_last()).push(s.last())
    }
}

/// The characters of a string, in order.
pub(crate) fn chars_of(s: &str) -> (r: Vec<char>)
    ensures
        r@ == s@,
{
    let mut v: Vec<char> = Vec::new();
    for c in it: s.chars()
        invariant
            it.seq() == s@,
            v@ == it.seq().subrange(0, it.index() as int),
    {
        v.push(c);
    }
    v
}

/// Relies on String::push: appends one character at the end.
#[verifier::external_body]
pub(crate) fn push_char(s: &mut String, c: char)
    ensures
        final(s)@ == old(s)@.push(c),
{
    s.push(c)
}

/// Removes every newline, tab, carriage-return and double-quote character.
pub fn unescape(text: String) -> (r: String)
    ensures
        r@ == strip_controls(text@),
{
    let cs = chars_of(text.as_str());
    let mut out = String::new();
    let mut i: usize = 0;
    while i < cs.len()
        invariant
            i <= cs@.len(),
            cs@ == text@,
            out@ == strip_controls(cs@.subrange(0, i as int)),
        decreases cs@.len() - i,
    {
        let c = cs[i];
        assert(cs@.subrange(0, i + 1).drop_last() == cs@.subrange(0, i as int));
        if !(c == '\n' || c == '\t' || c == '\r' || c == '"') {
            push_char(&mut out, c);
        }
        i = i + 1;
    }
    assert(cs@.subrange(0, cs@.len() as int) == cs@);
    out
}

/// No stripped character is left after normalizing.
pub proof fn lemma_strip_leaves_none(s: Seq<char>)
    ensures
        forall|i: int| 0 <= i < strip_controls(s).len() ==> !is_stripped(#[trigger] strip_controls(s)[i]),
    decreases s.len(),
{
    if s.len() > 0 {
        lemma_strip_leaves_none(s.drop_last());
        let t = strip_controls(s.drop_last());
        if !is_stripped(s.last()) {
            assert forall|i: int| 0 <= i < t.push(s.last()).len() implies !is_stripped(
                #[trigger] t.push(s.last())[i],
            ) by {
                if i < t.len() {
                    assert(t.push(s.last())[i] == t[i]);
                }
            }
        }
    }
}

/// Text without stripped characters is left unchanged.
pub proof fn lemma_strip_clean(s: Seq<char>)
    requires
        forall|i: int| 0 <= i < s.len() ==> !is_stripped(#[trigger] s[i]),
    ensures
        strip_controls(s) == s,
    decreases s.len(),
{
    if s.len() > 0 {
        lemma_strip_clean(s.drop_last());
        assert(s.drop_last().push(s.last()) == s);
    }
}

/// Normalizing is idempotent: a second pass over normalized text changes nothing.
pub proof fn lemma_unescape_idempotent(s: Seq<char>)
    ensures
        strip_controls(strip_controls(s)) == strip_controls(s),
{
    lemma_strip_leaves_none(s);
    lemma_strip_clean(strip_controls(s));
}

} // verus!
