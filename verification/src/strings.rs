//! Character-level text operations used by the tokenizer and the renderer,
//! each with the mathematical definition it is proved against.
use vstd::prelude::*;

verus! {

/// Unicode `White_Space` property, the definition `char::is_whitespace` follows.
pub open spec fn spec_is_whitespace(c: char) -> bool {
    let v = c as u32;
    ||| (0x09 <= v && v <= 0x0d)
    ||| v == 0x20
    ||| v == 0x85
    ||| v == 0xa0
    ||| v == 0x1680
    ||| (0x2000 <= v && v <= 0x200a)
    ||| v == 0x2028
    ||| v == 0x2029
    ||| v == 0x202f
    ||| v == 0x205f
    ||| v == 0x3000
}

/// Whether `c` is a Unicode whitespace character.
pub fn is_whitespace(c: char) -> (r: bool)
    ensures
        r == spec_is_whitespace(c),
{
    let v = c as u32;
    (0x09 <= v && v <= 0x0d) || v == 0x20 || v == 0x85 || v == 0xa0 || v == 0x1680 || (0x2000
        <= v && v <= 0x200a) || v == 0x2028 || v == 0x2029 || v == 0x202f || v == 0x205f || v
        == 0x3000
}

/// Every character of `s` is whitespace (also true of the empty text).
pub open spec fn all_whitespace(s: Seq<char>) -> bool {
    forall|i: int| 0 <= i < s.len() ==> spec_is_whitespace(#[trigger] s[i])
}

/// `s` with its leading whitespace removed.
pub open spec fn trim_start(s: Seq<char>) -> Seq<char>
    decreases s.len(),
{
    if s.len() > 0 && spec_is_whitespace(s[0]) {
        trim_start(s.drop_first())
    } else {
        s
    }
}

/// `s` with its trailing whitespace removed.
pub open spec fn trim_end(s: Seq<char>) -> Seq<char>
    decreases s.len(),
{
    if s.len() > 0 && spec_is_whitespace(s.last()) {
        trim_end(s.drop_last())
    } else {
        s
    }
}

/// `s` with leading and trailing whitespace removed, as `str::trim` does.
pub open spec fn trim(s: Seq<char>) -> Seq<char> {
    trim_end(trim_start(s))
}

/// `s` begins with `prefix`.
pub open spec fn starts_with(s: Seq<char>, prefix: Seq<char>) -> bool {
    prefix.len() <= s.len() && s.take(prefix.len() as int) == prefix
}

/// `s` ends with `suffix`.
pub open spec fn ends_with(s: Seq<char>, suffix: Seq<char>) -> bool {
    suffix.len() <= s.len() && s.skip(s.len() - suffix.len()) == suffix
}

/// Skipping `k` leading whitespace characters, followed by a non-whitespace one
/// (or the end), is what `trim_start` does.
pub proof fn lemma_trim_start_skip(s: Seq<char>, k: int)
    requires
        0 <= k <= s.len(),
        forall|i: int| 0 <= i < k ==> spec_is_whitespace(#[trigger] s[i]),
        k == s.len() || !spec_is_whitespace(s[k]),
    ensures
        trim_start(s) == s.skip(k),
    decreases k,
{
    if k == 0 {
        assert(s.skip(0) =~= s);
    } else {
        assert(spec_is_whitespace(s[0]));
        let t = s.drop_first();
        assert forall|i: int| 0 <= i < k - 1 implies spec_is_whitespace(#[trigger] t[i]) by {
            assert(t[i] == s[i + 1]);
        }
        lemma_trim_start_skip(t, k - 1);
        assert(t.skip(k - 1) =~= s.skip(k));
    }
}

/// Dropping trailing whitespace down to a non-whitespace character (or the start)
/// is what `trim_end` does.
pub proof fn lemma_trim_end_take(s: Seq<char>, m: int)
    requires
        0 <= m <= s.len(),
        forall|i: int| m <= i < s.len() ==> spec_is_whitespace(#[trigger] s[i]),
        m == 0 || !spec_is_whitespace(s[m - 1]),
    ensures
        trim_end(s) == s.take(m),
    decreases s.len() - m,
{
    if m == s.len() {
        assert(s.take(m) =~= s);
    } else {
        assert(spec_is_whitespace(s.last()));
        let t = s.drop_last();
        assert forall|i: int| m <= i < t.len() implies spec_is_whitespace(#[trigger] t[i]) by {
            assert(t[i] == s[i]);
        }
        lemma_trim_end_take(t, m);
        assert(t.take(m) =~= s.take(m));
    }
}

/// `trim_end` keeps a prefix.
pub proof fn lemma_trim_end_prefix(s: Seq<char>)
    ensures
        trim_end(s).len() <= s.len(),
        trim_end(s) == s.take(trim_end(s).len() as int),
    decreases s.len(),
{
    if s.len() > 0 && spec_is_whitespace(s.last()) {
        lemma_trim_end_prefix(s.drop_last());
        assert(s.drop_last().take(trim_end(s).len() as int) =~= s.take(trim_end(s).len() as int));
    } else {
        assert(s.take(s.len() as int) =~= s);
    }
}

/// Every character of `s` is ASCII.
pub open spec fn all_ascii(s: Seq<char>) -> bool {
    forall|i: int| 0 <= i < s.len() ==> (#[trigger] s[i] as u32) < 0x80
}

/// A text takes exactly one UTF-8 byte per character iff it is all ASCII.
pub proof fn lemma_utf8_len_ascii(s: Seq<char>)
    ensures
        vstd::utf8::encode_utf8(s).len() >= s.len(),
        all_ascii(s) <==> vstd::utf8::encode_utf8(s).len() == s.len(),
    decreases s.len(),
{
    if s.len() > 0 {
        let t = s.drop_first();
        lemma_utf8_len_ascii(t);
        if all_ascii(s) {
            assert forall|i: int| 0 <= i < t.len() implies (#[trigger] t[i] as u32) < 0x80 by {
                assert(t[i] == s[i + 1]);
            }
        } else {
            let k = choose|i: int| 0 <= i < s.len() && !((#[trigger] s[i] as u32) < 0x80);
            if k > 0 {
                assert(t[k - 1] == s[k]);
            }
        }
        if all_ascii(t) && (s[0] as u32) < 0x80 {
            assert forall|i: int| 0 <= i < s.len() implies (#[trigger] s[i] as u32) < 0x80 by {
                if i > 0 {
                    assert(t[i - 1] == s[i]);
                }
            }
        }
    }
}

/// Whether every character of `s[start..end]` is ASCII.
pub fn all_ascii_in(s: &Vec<char>, start: usize, end: usize) -> (r: bool)
    requires
        start <= end <= s.len(),
    ensures
        r == all_ascii(s@.subrange(start as int, end as int)),
{
    let mut i = start;
    while i < end
        invariant
            start <= i <= end <= s.len(),
            forall|j: int| start <= j < i ==> (#[trigger] s@[j] as u32) < 0x80,
        decreases end - i,
    {
        if (s[i] as u32) >= 0x80 {
            assert(s@.subrange(start as int, end as int)[i - start] == s@[i as int]);
            return false;
        }
        i = i + 1;
    }
    assert forall|j: int| 0 <= j < end - start implies (#[trigger] s@.subrange(
        start as int,
        end as int,
    )[j] as u32) < 0x80 by {
        assert(s@.subrange(start as int, end as int)[j] == s@[start + j]);
    }
    true
}

/// The bounds `(start, end)` such that `s[start..end]` is `trim(s)`.
pub fn trim_bounds(s: &Vec<char>) -> (r: (usize, usize))
    ensures
        r.0 <= r.1 <= s.len(),
        s@.subrange(r.0 as int, r.1 as int) == trim(s@),
{
    let n = s.len();
    let mut start: usize = 0;
    while start < n && is_whitespace(s[start])
        invariant
            start <= n,
            n == s.len(),
            forall|i: int| 0 <= i < start ==> spec_is_whitespace(#[trigger] s@[i]),
        decreases n - start,
    {
        start = start + 1;
    }
    let mut end: usize = n;
    while end > start && is_whitespace(s[end - 1])
        invariant
            start <= end <= n,
            n == s.len(),
            forall|i: int| end <= i < n ==> spec_is_whitespace(#[trigger] s@[i]),
        decreases end,
    {
        end = end - 1;
    }
    proof {
        lemma_trim_start_skip(s@, start as int);
        let t = s@.skip(start as int);
        let m = end - start;
        assert forall|i: int| m <= i < t.len() implies spec_is_whitespace(#[trigger] t[i]) by {
            assert(t[i] == s@[i + start]);
        }
        if m > 0 {
            assert(t[m - 1] == s@[end - 1]);
        }
        lemma_trim_end_take(t, m as int);
        assert(t.take(m as int) =~= s@.subrange(start as int, end as int));
    }
    (start, end)
}


/// Whether `s` begins with `prefix`.
pub fn has_prefix(s: &Vec<char>, prefix: &Vec<char>) -> (r: bool)
    ensures
        r == starts_with(s@, prefix@),
{
    if prefix.len() > s.len() {
        return false;
    }
    let mut i: usize = 0;
    while i < prefix.len()
        invariant
            i <= prefix.len() <= s.len(),
            forall|j: int| 0 <= j < i ==> s@[j] == prefix@[j],
        decreases prefix.len() - i,
    {
        if s[i] != prefix[i] {
            assert(s@.take(prefix.len() as int)[i as int] != prefix@[i as int]);
            return false;
        }
        i = i + 1;
    }
    assert(s@.take(prefix.len() as int) =~= prefix@);
    true
}

/// Whether every character of `s[start..end]` is whitespace.
pub fn all_whitespace_in(s: &Vec<char>, start: usize, end: usize) -> (r: bool)
    requires
        start <= end <= s.len(),
    ensures
        r == all_whitespace(s@.subrange(start as int, end as int)),
{
    let mut i = start;
    while i < end
        invariant
            start <= i <= end <= s.len(),
            forall|j: int| start <= j < i ==> spec_is_whitespace(#[trigger] s@[j]),
        decreases end - i,
    {
        if !is_whitespace(s[i]) {
            assert(s@.subrange(start as int, end as int)[i - start] == s@[i as int]);
            return false;
        }
        i = i + 1;
    }
    assert forall|j: int| 0 <= j < end - start implies spec_is_whitespace(
        #[trigger] s@.subrange(start as int, end as int)[j],
    ) by {
        assert(s@.subrange(start as int, end as int)[j] == s@[start + j]);
    }
    true
}

/// The number of characters before the first `'\n'` of `s` (all of them if there is none).
pub open spec fn line_end(s: Seq<char>) -> nat
    decreases s.len(),
{
    if s.len() == 0 || s[0] == '\n' {
        0
    } else {
        1 + line_end(s.drop_first())
    }
}

/// `l` without a final `'\r'`.
pub open spec fn strip_cr(l: Seq<char>) -> Seq<char> {
    if l.len() > 0 && l.last() == '\r' {
        l.drop_last()
    } else {
        l
    }
}

/// The lines of `s`, as `str::lines` splits them: at `"\n"` or `"\r\n"`, with the
/// line endings left out and no empty line after a final line ending.
pub open spec fn lines(s: Seq<char>) -> Seq<Seq<char>>
    decreases s.len(),
{
    if s.len() == 0 {
        Seq::empty()
    } else {
        let n = line_end(s);
        if n < s.len() {
            seq![strip_cr(s.take(n as int))] + lines(s.skip(n as int + 1))
        } else {
            seq![s]
        }
    }
}

pub proof fn lemma_line_end_bound(s: Seq<char>)
    ensures
        line_end(s) <= s.len(),
        line_end(s) < s.len() ==> s[line_end(s) as int] == '\n',
        forall|i: int| 0 <= i < line_end(s) ==> s[i] != '\n',
    decreases s.len(),
{
    if s.len() > 0 && s[0] != '\n' {
        lemma_line_end_bound(s.drop_first());
        assert forall|i: int| 0 <= i < line_end(s) implies s[i] != '\n' by {
            if i > 0 {
                assert(s[i] == s.drop_first()[i - 1]);
            }
        }
    }
}

/// `line_end` is the position of the first newline.
pub proof fn lemma_line_end_is(s: Seq<char>, n: int)
    requires
        0 <= n <= s.len(),
        forall|i: int| 0 <= i < n ==> s[i] != '\n',
        n == s.len() || s[n] == '\n',
    ensures
        line_end(s) == n,
    decreases n,
{
    if n > 0 {
        let t = s.drop_first();
        assert forall|i: int| 0 <= i < n - 1 implies t[i] != '\n' by {
            assert(t[i] == s[i + 1]);
        }
        lemma_line_end_is(t, n - 1);
    }
}

/// The text of `s[start..end]` without a final `'\r'`.
fn string_of_stripped(s: &Vec<char>, start: usize, end: usize) -> (r: String)
    requires
        start <= end <= s.len(),
    ensures
        r@ == strip_cr(s@.subrange(start as int, end as int)),
{
    if end > start && s[end - 1] == '\r' {
        let r = string_of(s, start, end - 1);
        assert(s@.subrange(start as int, end as int).drop_last() =~= s@.subrange(
            start as int,
            end - 1,
        ));
        r
    } else {
        string_of(s, start, end)
    }
}

/// Splits `input` into its lines, as `str::lines` does.
pub fn split_lines(input: &str) -> (r: Vec<String>)
    ensures
        r@.map_values(|l: String| l@) == lines(input@),
{
    let s = chars_of(input);
    let n = s.len();
    let mut r: Vec<String> = Vec::new();
    let mut pos: usize = 0;
    assert(s@.skip(0) =~= s@);
    while pos < n
        invariant
            n == s.len(),
            pos <= n,
            s@ == input@,
            r@.map_values(|l: String| l@) + lines(s@.skip(pos as int)) == lines(s@),
        decreases n - pos,
    {
        let ghost rest = s@.skip(pos as int);
        let mut end = pos;
        while end < n && s[end] != '\n'
            invariant
                pos <= end <= n,
                n == s.len(),
                forall|i: int| pos <= i < end ==> s@[i] != '\n',
            decreases n - end,
        {
            end = end + 1;
        }
        proof {
            assert forall|i: int| 0 <= i < end - pos implies rest[i] != '\n' by {
                assert(rest[i] == s@[pos + i]);
            }
            if end < n {
                assert(rest[end - pos] == s@[end as int]);
            }
            lemma_line_end_is(rest, end - pos);
            assert(rest.take(end - pos) =~= s@.subrange(pos as int, end as int));
        }
        let ghost prev = r@.map_values(|l: String| l@);
        if end < n {
            let line = string_of_stripped(&s, pos, end);
            r.push(line);
            proof {
                assert(rest.skip(end - pos + 1) =~= s@.skip(end + 1));
                assert(r@.map_values(|l: String| l@) =~= prev.push(line@));
                assert(lines(rest) == seq![line@] + lines(s@.skip(end + 1)));
                assert(prev.push(line@) + lines(s@.skip(end + 1)) =~= prev + (seq![line@] + lines(s@.skip(end + 1))));
            }
            pos = end + 1;
        } else {
            let line = string_of(&s, pos, end);
            r.push(line);
            proof {
                assert(rest =~= s@.subrange(pos as int, end as int));
                assert(r@.map_values(|l: String| l@) =~= prev.push(line@));
                assert(s@.skip(end as int) =~= Seq::<char>::empty());
                assert(lines(s@.skip(end as int)) =~= Seq::<Seq<char>>::empty());
                assert(prev.push(line@) + lines(s@.skip(end as int)) =~= prev + lines(rest));
            }
            pos = end;
        }
    }
    proof {
        assert(s@.skip(n as int) =~= Seq::<char>::empty());
        assert(r@.map_values(|l: String| l@) + Seq::<Seq<char>>::empty() =~= r@.map_values(|l: String| l@));
    }
    r
}

/// Trusted: `String::push` appends `ch` to the end of the string, as its
/// documentation states; this is taken on trust, not proved.
pub assume_specification[ String::push ](s: &mut String, ch: char)
    ensures
        final(s)@ == old(s)@.push(ch),
;

/// Trusted: `String::push_str` appends `string` to the end of the string, as its
/// documentation states; this is taken on trust, not proved.
pub assume_specification[ String::push_str ](s: &mut String, string: &str)
    ensures
        final(s)@ == old(s)@ + string@,
;

/// The characters of `s`, in order.
pub fn chars_of(s: &str) -> (r: Vec<char>)
    ensures
        r@ == s@,
{
    let mut r: Vec<char> = Vec::new();
    proof {
        broadcast use vstd::string::group_string_axioms;
    }
    for c in it: s.chars()
        invariant
            r@ == it.seq().take(it.index() as int),
    {
        r.push(c);
        assert(it.seq().take(it.index() + 1) =~= r@);
    }
    r
}

/// The text made of `s[start..end]`.
pub fn string_of(s: &Vec<char>, start: usize, end: usize) -> (r: String)
    requires
        start <= end <= s.len(),
    ensures
        r@ == s@.subrange(start as int, end as int),
{
    let mut r = String::new();
    let mut i = start;
    while i < end
        invariant
            start <= i <= end <= s.len(),
            r@ == s@.subrange(start as int, i as int),
        decreases end - i,
    {
        r.push(s[i]);
        assert(s@.subrange(start as int, i + 1) =~= s@.subrange(start as int, i as int).push(s@[i as int]));
        i = i + 1;
    }
    r
}

/// `s` without leading and trailing whitespace, as `str::trim` gives it.
pub fn trim_str(s: &str) -> (r: String)
    ensures
        r@ == trim(s@),
{
    let chars = chars_of(s);
    let (a, b) = trim_bounds(&chars);
    string_of(&chars, a, b)
}

/// The first character `trim_start` keeps is not whitespace, and it removes
/// everything exactly when everything is whitespace.
proof fn lemma_trim_start_facts(s: Seq<char>)
    ensures
        trim_start(s).len() > 0 ==> !spec_is_whitespace(trim_start(s)[0]),
        trim_start(s).len() == 0 <==> all_whitespace(s),
    decreases s.len(),
{
    if s.len() > 0 && spec_is_whitespace(s[0]) {
        let t = s.drop_first();
        lemma_trim_start_facts(t);
        if all_whitespace(t) {
            assert forall|i: int| 0 <= i < s.len() implies spec_is_whitespace(#[trigger] s[i]) by {
                if i > 0 {
                    assert(s[i] == t[i - 1]);
                }
            }
        }
        if all_whitespace(s) {
            assert forall|i: int| 0 <= i < t.len() implies spec_is_whitespace(#[trigger] t[i]) by {
                assert(t[i] == s[i + 1]);
            }
        }
    } else if s.len() > 0 {
        assert(!spec_is_whitespace(s[0]));
    }
}

/// `trim_end` keeps a text whose first character is not whitespace non-empty.
proof fn lemma_trim_end_keeps_first(s: Seq<char>)
    requires
        s.len() > 0,
        !spec_is_whitespace(s[0]),
    ensures
        trim_end(s).len() > 0,
    decreases s.len(),
{
    if spec_is_whitespace(s.last()) {
        assert(s.len() > 1);
        lemma_trim_end_keeps_first(s.drop_last());
    }
}

/// A line is blank (all whitespace) exactly when trimming it leaves nothing.
pub proof fn lemma_blank_iff_trims_to_empty(s: Seq<char>)
    ensures
        all_whitespace(s) <==> trim(s).len() == 0,
{
    lemma_trim_start_facts(s);
    if trim_start(s).len() > 0 {
        lemma_trim_end_keeps_first(trim_start(s));
    }
}

/// No line that `lines` gives holds a line feed.
pub proof fn lemma_lines_have_no_newline(s: Seq<char>)
    ensures
        forall|k: int, i: int|
            0 <= k < lines(s).len() && 0 <= i < lines(s)[k].len() ==> #[trigger] lines(s)[k][i]
                != '\n',
    decreases s.len(),
{
    if s.len() > 0 {
        let n = line_end(s);
        lemma_line_end_bound(s);
        if n < s.len() {
            let rest = s.skip(n as int + 1);
            lemma_lines_have_no_newline(rest);
            let first = strip_cr(s.take(n as int));
            assert forall|k: int, i: int|
                0 <= k < lines(s).len() && 0 <= i < lines(s)[k].len() implies #[trigger] lines(
                s,
            )[k][i] != '\n' by {
                if k == 0 {
                    assert(lines(s)[0] == first);
                    assert(first[i] == s[i]);
                } else {
                    assert(lines(s)[k] == lines(rest)[k - 1]);
                }
            }
        } else {
            assert forall|k: int, i: int|
                0 <= k < lines(s).len() && 0 <= i < lines(s)[k].len() implies #[trigger] lines(
                s,
            )[k][i] != '\n' by {
                assert(lines(s)[k] == s);
            }
        }
    }
}

/// `ls` joined with line feeds between them.
pub open spec fn join_lines(ls: Seq<Seq<char>>) -> Seq<char>
    decreases ls.len(),
{
    if ls.len() == 0 {
        Seq::empty()
    } else if ls.len() == 1 {
        ls[0]
    } else {
        ls[0] + seq!['\n'] + join_lines(ls.drop_first())
    }
}

/// Splitting a text into lines loses nothing but the line endings: a text with no
/// carriage return and no final line feed is its lines joined by line feeds.
pub proof fn lemma_lines_join_back(s: Seq<char>)
    requires
        forall|i: int| 0 <= i < s.len() ==> #[trigger] s[i] != '\r',
        s.len() > 0 ==> s.last() != '\n',
    ensures
        join_lines(lines(s)) == s,
    decreases s.len(),
{
    if s.len() > 0 {
        let n = line_end(s);
        lemma_line_end_bound(s);
        if n < s.len() {
            let rest = s.skip(n as int + 1);
            assert(n + 1 < s.len());
            assert forall|i: int| 0 <= i < rest.len() implies #[trigger] rest[i] != '\r' by {
                assert(rest[i] == s[n + 1 + i]);
            }
            assert(rest.last() == s.last());
            lemma_lines_join_back(rest);
            let first = s.take(n as int);
            if first.len() > 0 {
                assert(first.last() == s[n - 1]);
            }
            assert(strip_cr(first) == first);
            assert(lines(rest).len() > 0);
            let ls = lines(s);
            assert(ls[0] == first);
            assert(ls.drop_first() =~= lines(rest));
            assert(first + seq!['\n'] + rest =~= s);
        } else {
            assert(lines(s) =~= seq![s]);
        }
    } else {
        assert(lines(s) =~= Seq::<Seq<char>>::empty());
        assert(s =~= Seq::<char>::empty());
    }
}

/// `c` in lower case if it is an ASCII capital letter, as `char::to_ascii_lowercase` gives it.
pub open spec fn ascii_lowercase_char(c: char) -> char {
    if 'A' <= c && c <= 'Z' {
        ((c as u32) + 32) as char
    } else {
        c
    }
}

/// `s` with its ASCII capital letters in lower case, as `str::to_ascii_lowercase` gives it.
pub open spec fn ascii_lowercase(s: Seq<char>) -> Seq<char> {
    s.map_values(|c: char| ascii_lowercase_char(c))
}

/// Lower-casing keeps each character in its place, turns every ASCII capital
/// `A` to `Z` into its small letter (32 code points on) and leaves every other
/// character as it is; so no ASCII capital is left in the result.
pub proof fn lemma_ascii_lowercase_lowers_capitals(s: Seq<char>)
    ensures
        ascii_lowercase(s).len() == s.len(),
        forall|i: int|
            0 <= i < s.len() && 'A' <= s[i] <= 'Z' ==> (#[trigger] ascii_lowercase(s)[i]) as u32
                == (s[i] as u32) + 32 && 'a' <= ascii_lowercase(s)[i] <= 'z',
        forall|i: int|
            0 <= i < s.len() && !('A' <= s[i] <= 'Z') ==> #[trigger] ascii_lowercase(s)[i] == s[i],
        forall|i: int| 0 <= i < s.len() ==> !('A' <= #[trigger] ascii_lowercase(s)[i] <= 'Z'),
{
    assert forall|i: int| 0 <= i < s.len() && 'A' <= s[i] <= 'Z' implies (#[trigger] ascii_lowercase(
        s,
    )[i]) as u32 == (s[i] as u32) + 32 && 'a' <= ascii_lowercase(s)[i] <= 'z' by {
        let c = s[i];
        let v = (c as u32) + 32;
        assert(ascii_lowercase(s)[i] == ascii_lowercase_char(c));
        assert(0x41 <= c as u32 <= 0x5a);
        assert(ascii_lowercase_char(c) == (v as u32) as char);
    }
}

fn to_ascii_lowercase_char(c: char) -> (r: char)
    ensures
        r == ascii_lowercase_char(c),
{
    if 'A' <= c && c <= 'Z' {
        let b = c as u8;
        assert(b as u32 == c as u32);
        let r = (b + 32) as char;
        assert(r as u32 == (c as u32) + 32);
        r
    } else {
        c
    }
}

/// `s` with its ASCII capital letters in lower case.
pub fn to_ascii_lowercase(s: &str) -> (r: String)
    ensures
        r@ == ascii_lowercase(s@),
{
    let chars = chars_of(s);
    let mut r = String::new();
    let mut i: usize = 0;
    while i < chars.len()
        invariant
            i <= chars.len(),
            chars@ == s@,
            r@ == ascii_lowercase(chars@.take(i as int)),
        decreases chars.len() - i,
    {
        r.push(to_ascii_lowercase_char(chars[i]));
        proof {
            assert(ascii_lowercase(chars@.take(i + 1)) =~= ascii_lowercase(chars@.take(i as int)).push(
                ascii_lowercase_char(chars@[i as int]),
            ));
        }
        i = i + 1;
    }
    assert(chars@.take(i as int) =~= s@);
    r
}

} // verus!
