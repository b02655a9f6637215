//! Escaping text for HTML.
use vstd::prelude::*;
use crate::strings::chars_of;

verus! {

/// The HTML form of one character: `<`, `>`, `&`, `'` and `"` become entities.
pub open spec fn escaped_char(c: char) -> Seq<char> {
    if c == '<' {
        seq!['&', 'l', 't', ';']
    } else if c == '>' {
        seq!['&', 'g', 't', ';']
    } else if c == '&' {
        seq!['&', 'a', 'm', 'p', ';']
    } else if c == '\'' {
        seq!['&', '#', '3', '9', ';']
    } else if c == '"' {
        seq!['&', 'q', 'u', 'o', 't', ';']
    } else {
        seq![c]
    }
}

/// The HTML form of a text: each character escaped in turn.
pub open spec fn escaped(s: Seq<char>) -> Seq<char>
    decreases s.len(),
{
    if s.len() == 0 {
        Seq::empty()
    } else {
        escaped(s.drop_last()) + escaped_char(s.last())
    }
}

/// Appends the escaped form of `c` to `out`.
fn push_escaped_char(out: &mut String, c: char)
    ensures
        final(out)@ == old(out)@ + escaped_char(c),
{
    let ghost before = out@;
    if c == '<' {
        out.push('&');
        out.push('l');
        out.push('t');
        out.push(';');
    } else if c == '>' {
        out.push('&');
        out.push('g');
        out.push('t');
        out.push(';');
    } else if c == '&' {
        out.push('&');
        out.push('a');
        out.push('m');
        out.push('p');
        out.push(';');
    } else if c == '\'' {
        out.push('&');
        out.push('#');
        out.push('3');
        out.push('9');
        out.push(';');
    } else if c == '"' {
        out.push('&');
        out.push('q');
        out.push('u');
        out.push('o');
        out.push('t');
        out.push(';');
    } else {
        out.push(c);
    }
    assert(out@ =~= before + escaped_char(c));
}

/// Appends the escaped form of `s` to `out`.
pub fn push_escaped(out: &mut String, s: &str)
    ensures
        final(out)@ == old(out)@ + escaped(s@),
{
    let chars = chars_of(s);
    let ghost start = out@;
    let mut i: usize = 0;
    while i < chars.len()
        invariant
            i <= chars.len(),
            chars@ == s@,
            out@ == start + escaped(chars@.take(i as int)),
        decreases chars.len() - i,
    {
        push_escaped_char(out, chars[i]);
        proof {
            assert(chars@.take(i + 1).drop_last() =~= chars@.take(i as int));
        }
        i = i + 1;
    }
    assert(chars@.take(i as int) =~= s@);
}

/// Escaping goes character by character, whatever stands around a character:
/// escaping two texts one after the other gives the escape of the two together.
pub proof fn lemma_escaped_concat(s1: Seq<char>, s2: Seq<char>)
    ensures
        escaped(s1 + s2) == escaped(s1) + escaped(s2),
    decreases s2.len(),
{
    if s2.len() == 0 {
        assert(s1 + s2 =~= s1);
        assert(escaped(s1) + escaped(s2) =~= escaped(s1));
    } else {
        let p = s2.drop_last();
        lemma_escaped_concat(s1, p);
        assert((s1 + s2).drop_last() =~= s1 + p);
        assert((s1 + s2).last() == s2.last());
        assert(escaped(s1) + escaped(p) + escaped_char(s2.last()) =~= escaped(s1) + (escaped(p)
            + escaped_char(s2.last())));
    }
}

/// Every `&`, `<`, `>`, `"` and `'` of a text becomes its entity wherever it
/// stands, whatever comes before or after it, and the rest is escaped on its own:
/// so `R&D` gives `R&amp;D`, and no `&` of the text is left bare.
pub proof fn lemma_escaped_special_chars(s1: Seq<char>, s2: Seq<char>)
    ensures
        escaped(s1 + seq!['&'] + s2) == escaped(s1) + seq!['&', 'a', 'm', 'p', ';'] + escaped(s2),
        escaped(s1 + seq!['<'] + s2) == escaped(s1) + seq!['&', 'l', 't', ';'] + escaped(s2),
        escaped(s1 + seq!['>'] + s2) == escaped(s1) + seq!['&', 'g', 't', ';'] + escaped(s2),
        escaped(s1 + seq!['"'] + s2) == escaped(s1) + seq!['&', 'q', 'u', 'o', 't', ';'] + escaped(
            s2,
        ),
        escaped(s1 + seq!['\''] + s2) == escaped(s1) + seq!['&', '#', '3', '9', ';'] + escaped(s2),
{
    let cs: Seq<char> = seq!['&', '<', '>', '"', '\''];
    assert forall|i: int| 0 <= i < 5 implies escaped(s1 + seq![#[trigger] cs[i]] + s2) == escaped(s1)
        + escaped_char(cs[i]) + escaped(s2) by {
        let c = cs[i];
        lemma_escaped_concat(s1 + seq![c], s2);
        lemma_escaped_concat(s1, seq![c]);
        assert(seq![c].drop_last() =~= Seq::<char>::empty());
        assert(seq![c].last() == c);
        assert(escaped(Seq::<char>::empty()) == Seq::<char>::empty());
        assert(escaped(seq![c]) == escaped(seq![c].drop_last()) + escaped_char(seq![c].last()));
        assert(escaped(seq![c]) =~= escaped_char(c));
    }
    assert(cs[0] == '&');
    assert(cs[1] == '<');
    assert(cs[2] == '>');
    assert(cs[3] == '"');
    assert(cs[4] == '\'');
}

/// Characters that escaping leaves out of its result.
pub open spec fn markup_char(c: char) -> bool {
    c == '<' || c == '>' || c == '"' || c == '\''
}

/// Escaped text holds no `<`, `>`, `"` or `'`, so it cannot open or close a tag
/// or end an attribute value.
pub proof fn lemma_escaped_has_no_markup(s: Seq<char>)
    ensures
        forall|i: int| 0 <= i < escaped(s).len() ==> !markup_char(#[trigger] escaped(s)[i]),
    decreases s.len(),
{
    if s.len() > 0 {
        let p = s.drop_last();
        lemma_escaped_has_no_markup(p);
        let e = escaped_char(s.last());
        assert forall|i: int| 0 <= i < escaped(s).len() implies !markup_char(
            #[trigger] escaped(s)[i],
        ) by {
            if i < escaped(p).len() {
                assert(escaped(s)[i] == escaped(p)[i]);
            } else {
                assert(escaped(s)[i] == e[i - escaped(p).len()]);
            }
        }
    }
}

/// Text free of the characters escaping rewrites is left as it is.
pub proof fn lemma_escape_keeps_plain_text(s: Seq<char>)
    requires
        forall|i: int| 0 <= i < s.len() ==> !markup_char(#[trigger] s[i]) && s[i] != '&',
    ensures
        escaped(s) == s,
    decreases s.len(),
{
    if s.len() > 0 {
        let p = s.drop_last();
        assert forall|i: int| 0 <= i < p.len() implies !markup_char(#[trigger] p[i]) && p[i]
            != '&' by {
            assert(p[i] == s[i]);
        }
        lemma_escape_keeps_plain_text(p);
        assert(s.last() == s[s.len() - 1]);
        assert(p.push(s.last()) =~= s);
    } else {
        assert(s =~= Seq::<char>::empty());
    }
}

} // verus!
