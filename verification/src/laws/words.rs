//! What filtering, trimming and cutting text come to.
use vstd::prelude::*;
use vstd::utf8::encode_utf8;

use crate::laws::attempt::{has_no_controls, lemma_unfiltered};
use crate::text::{
    failure_text, first_newline, from_chars, is_safe_char, join_last, join_lines,
    keep_suffix, last_lines, lemma_first_newline, lemma_join_front, lemma_lines_front,
    lemma_suffix_is_suffix, lemma_trim_end_prefix, lines, safe_text, split_lines, suffix_within,
    to_chars, trim_end, trim_end_chars,
};

verus! {

/// The line feeds of `s`.
pub open spec fn feeds(s: Seq<char>) -> nat
    decreases s.len(),
{
    if s.len() == 0 {
        0
    } else {
        feeds(s.drop_first()) + if s[0] == '\n' {
            1nat
        } else {
            0
        }
    }
}

proof fn lemma_feeds_joined(a: Seq<char>, b: Seq<char>)
    ensures
        feeds(a + b) == feeds(a) + feeds(b),
    decreases a.len(),
{
    if a.len() == 0 {
        assert(a + b =~= b);
    } else {
        lemma_feeds_joined(a.drop_first(), b);
        assert((a + b).drop_first() =~= a.drop_first() + b);
    }
}

proof fn lemma_no_feeds(s: Seq<char>)
    requires
        !s.contains('\n'),
    ensures
        feeds(s) == 0,
    decreases s.len(),
{
    if s.len() > 0 {
        assert(s.contains(s[0]));
        assert(!s.drop_first().contains('\n')) by {
            if s.drop_first().contains('\n') {
                let i = choose|i: int| 0 <= i < s.len() - 1 && s.drop_first()[i] == '\n';
                assert(s[i + 1] == '\n');
            }
        }
        lemma_no_feeds(s.drop_first());
    }
}

/// Text is filtered character by character: joined texts give the joined results, and of a single
/// character is left what it is, unless it is a control character other than the line feed.
pub proof fn law_filtered_one_by_one(
    front: String,
    back: String,
    whole: String,
    front_left: String,
    back_left: String,
    whole_left: String,
)
    requires
        call_ensures(safe_text, (front,), front_left),
        call_ensures(safe_text, (back,), back_left),
        call_ensures(safe_text, (whole,), whole_left),
        whole@ == front@ + back@,
    ensures
        whole_left@ == front_left@ + back_left@,
        front@.len() == 0 ==> front_left@.len() == 0,
        front@.len() == 1 && (front@[0] == '\n' || 0x20 <= front@[0] as u32 <= 0x7e
            || front@[0] as u32 >= 0xa0) ==> front_left@ == front@,
        front@.len() == 1 && front@[0] != '\n' && (front@[0] as u32 <= 0x1f || 0x7f
            <= front@[0] as u32 <= 0x9f) ==> front_left@.len() == 0,
{
    Seq::filter_distributes_over_add(front@, back@, |c: char| is_safe_char(c));
    reveal(Seq::filter);
    reveal_with_fuel(Seq::filter, 2);
    if front@.len() == 1 {
        assert(front@.drop_last() =~= Seq::empty());
        if is_safe_char(front@[0]) {
            assert(front_left@ =~= front@);
        }
    }
}

/// Text is the same taken apart into characters and put together again.
pub proof fn law_characters_read_back(text: &str, chars: Vec<char>, again: String)
    requires
        call_ensures(to_chars, (text,), chars),
        call_ensures(from_chars, (&chars,), again),
    ensures
        chars@.len() == text@.len(),
        again@ == text@,
{
}

/// Whitespace at the end is cut off, all of it and nothing else.
pub proof fn law_trimmed(chars: &mut Vec<char>)
    requires
        call_ensures(trim_end_chars, (chars,), ()),
    ensures
        final(chars)@.len() <= old(chars)@.len(),
        final(chars)@ == old(chars)@.take(final(chars)@.len() as int),
        forall|i: int|
            final(chars)@.len() <= i < old(chars)@.len() ==> crate::text::is_whitespace(
                #[trigger] old(chars)@[i],
            ),
        final(chars)@.len() > 0 ==> !crate::text::is_whitespace(final(chars)@.last()),
{
    lemma_trimmed(old(chars)@);
}

proof fn lemma_trimmed(s: Seq<char>)
    ensures
        trim_end(s).len() <= s.len(),
        trim_end(s) == s.take(trim_end(s).len() as int),
        forall|i: int| trim_end(s).len() <= i < s.len() ==> crate::text::is_whitespace(#[trigger] s[i]),
        trim_end(s).len() > 0 ==> !crate::text::is_whitespace(trim_end(s).last()),
    decreases s.len(),
{
    lemma_trim_end_prefix(s);
    if s.len() > 0 && crate::text::is_whitespace(s.last()) {
        let front = s.drop_last();
        lemma_trimmed(front);
        assert forall|i: int| trim_end(s).len() <= i < s.len() implies crate::text::is_whitespace(
            #[trigger] s[i],
        ) by {
            if i < s.len() - 1 {
                assert(s[i] == front[i]);
            }
        }
    }
}

/// What is kept is an end of the whole, takes the bytes allowed at most, and could not be a
/// character longer.
pub proof fn law_longest_end_is_kept(chars: &mut Vec<char>, limit: usize)
    requires
        call_ensures(keep_suffix, (chars, limit), ()),
    ensures
        final(chars)@.len() <= old(chars)@.len(),
        final(chars)@ == old(chars)@.skip(old(chars)@.len() - final(chars)@.len()),
        encode_utf8(final(chars)@).len() <= limit,
        final(chars)@.len() < old(chars)@.len() ==> encode_utf8(
            old(chars)@.skip(old(chars)@.len() - final(chars)@.len() - 1),
        ).len() > limit,
{
    lemma_suffix_is_suffix(old(chars)@, limit as nat);
    lemma_no_longer_end(old(chars)@, limit as nat);
}

proof fn lemma_no_longer_end(s: Seq<char>, limit: nat)
    ensures
        suffix_within(s, limit).len() < s.len() ==> encode_utf8(
            s.skip(s.len() - suffix_within(s, limit).len() - 1),
        ).len() > limit,
    decreases s.len(),
{
    if s.len() > 0 && encode_utf8(s).len() > limit {
        let rest = s.drop_first();
        lemma_suffix_is_suffix(rest, limit);
        lemma_no_longer_end(rest, limit);
        let kept = suffix_within(s, limit).len();
        if kept < rest.len() {
            assert(rest.skip(rest.len() - kept - 1) =~= s.skip(s.len() - kept - 1));
        } else {
            assert(s.skip(0) =~= s);
        }
    }
}

/// Text without a line feed is one line, or none if it is empty. A line that is put in front, with
/// its line feed, is the first one; a carriage return before the line feed is not part of it.
#[verifier::rlimit(40)]
pub proof fn law_lines_end_in_feeds(
    line: Vec<char>,
    rest: Vec<char>,
    whole: Vec<char>,
    line_split: Vec<Vec<char>>,
    rest_split: Vec<Vec<char>>,
    whole_split: Vec<Vec<char>>,
)
    requires
        call_ensures(split_lines, (&line,), line_split),
        call_ensures(split_lines, (&rest,), rest_split),
        call_ensures(split_lines, (&whole,), whole_split),
        !line@.contains('\n'),
        whole@ == line@.push('\n') + rest@,
    ensures
        line@.len() == 0 ==> line_split@.len() == 0,
        line@.len() > 0 ==> line_split@.len() == 1 && line_split@[0]@ == line@,
        whole_split@.len() == 1 + rest_split@.len(),
        line@.len() > 0 && line@.last() == '\r' ==> whole_split@[0]@ == line@.drop_last(),
        line@.len() == 0 || line@.last() != '\r' ==> whole_split@[0]@ == line@,
        forall|i: int|
            0 <= i < rest_split@.len() ==> (#[trigger] rest_split@[i])@ == whole_split@[i + 1]@,
{
    lemma_lines_front(line@, rest@);
    lemma_first_newline(line@);
    if first_newline(line@) < line@.len() {
        assert(line@.contains(line@[first_newline(line@)]));
    }
    lemma_deep(line_split);
    lemma_deep(rest_split);
    lemma_deep(whole_split);
    let whole_lines = lines(whole@);
    let rest_lines = lines(rest@);
    assert(whole_split@.len() == whole_lines.len());
    assert forall|i: int| 0 <= i < rest_split@.len() implies (#[trigger] rest_split@[i])@
        == whole_split@[i + 1]@ by {
        assert(whole_lines[i + 1] == rest_lines[i]);
        assert(rest_split.deep_view()[i] == rest_split@[i]@);
        assert(whole_split.deep_view()[i + 1] == whole_split@[i + 1]@);
    }
    assert(whole_lines[0] == whole_split.deep_view()[0]);
    if line@.len() > 0 {
        assert(line_split.deep_view()[0] == line_split@[0]@);
    }
}

proof fn lemma_deep(split: Vec<Vec<char>>)
    ensures
        split.deep_view().len() == split@.len(),
        forall|i: int| 0 <= i < split@.len() ==> #[trigger] split.deep_view()[i] == split@[i]@,
{
    assert forall|i: int| 0 <= i < split@.len() implies #[trigger] split.deep_view()[i]
        == split@[i]@ by {
        assert(split@[i].deep_view() =~= split@[i]@);
    }
}

/// The last lines are joined with line feeds between: none are nothing, one is the last line, and
/// one more is put in front of the others with a line feed, as long as there are more.
pub proof fn law_last_lines_are_joined(
    split: Vec<Vec<char>>,
    keep: usize,
    more: usize,
    joined: Vec<char>,
    joined_more: Vec<char>,
)
    requires
        call_ensures(join_last, (&split, keep), joined),
        call_ensures(join_last, (&split, more), joined_more),
        more == keep + 1,
    ensures
        keep == 0 || split@.len() == 0 ==> joined@.len() == 0,
        keep == 1 && split@.len() > 0 ==> joined@ == split@.last()@,
        keep >= split@.len() ==> joined_more@ == joined@,
        0 < keep < split@.len() ==> joined_more@ == split@[split@.len() - more]@.push('\n')
            + joined@,
{
    lemma_deep(split);
    let ls = split.deep_view();
    if keep == 1 && split@.len() > 0 {
        assert(last_lines(ls, 1) =~= seq![ls.last()]);
    }
    if 0 < keep < split@.len() {
        let fewer = last_lines(ls, keep as nat);
        assert(last_lines(ls, more as nat) =~= seq![ls[ls.len() - more]] + fewer);
        lemma_join_front(ls[ls.len() - more], fewer);
    }
}

/// A failed popup shows the reason, filtered and with its first characters only, a blank line, and
/// the last lines of the output, of which the end was cut to so many bytes and without the
/// whitespace behind it.
pub proof fn law_failure_is_reason_and_end_of_output(
    message: String,
    output: &str,
    rows: u16,
    text: String,
    reason: String,
    trimmed: &mut Vec<char>,
    cut: &mut Vec<char>,
    split: Vec<Vec<char>>,
    keep: usize,
    joined: Vec<char>,
)
    requires
        call_ensures(failure_text, (message, output, rows), text),
        call_ensures(safe_text, (message,), reason),
        old(trimmed)@ == output@,
        call_ensures(trim_end_chars, (trimmed,), ()),
        old(cut)@ == final(trimmed)@,
        call_ensures(keep_suffix, (cut, 65536usize), ()),
        call_ensures(split_lines, (&*final(cut),), split),
        rows >= 2 ==> keep + 2 == rows,
        rows < 2 ==> keep == 0,
        call_ensures(join_last, (&split, keep), joined),
    ensures
        reason@.len() <= 4096 ==> text@ == reason@ + seq!['\n', '\n'] + joined@,
        reason@.len() > 4096 ==> text@ == reason@.take(4096) + seq!['\n', '\n'] + joined@,
{
}

/// Output without carriage returns that does not end in a line feed.
pub open spec fn is_trimmed(s: Seq<char>) -> bool {
    !s.contains('\r') && (s.len() > 0 ==> s.last() != '\n')
}

/// Such output begins with a line, and what follows that is such output too.
#[verifier::rlimit(40)]
proof fn lemma_first_line(s: Seq<char>)
    requires
        is_trimmed(s),
        first_newline(s) < s.len(),
    ensures
        ({
            let line = s.take(first_newline(s));
            let rest = s.skip(first_newline(s) + 1);
            &&& 0 <= first_newline(s)
            &&& s[first_newline(s)] == '\n'
            &&& s == line.push('\n') + rest
            &&& rest.len() > 0
            &&& is_trimmed(rest)
            &&& lines(s) == seq![line] + lines(rest)
            &&& feeds(s) == 1 + feeds(rest)
        }),
{
    lemma_first_newline(s);
    let n = first_newline(s);
    let line = s.take(n);
    let rest = s.skip(n + 1);
    assert(s =~= line.push('\n') + rest);
    assert(rest.len() > 0);
    assert(rest.last() == s.last());
    assert(!rest.contains('\r')) by {
        if rest.contains('\r') {
            let i = choose|i: int| 0 <= i < rest.len() && rest[i] == '\r';
            assert(s[n + 1 + i] == '\r');
        }
    }
    assert(!line.contains('\n')) by {
        if line.contains('\n') {
            let i = choose|i: int| 0 <= i < line.len() && line[i] == '\n';
            assert(s[i] == '\n');
        }
    }
    if n > 0 {
        assert(line.last() == s[n - 1]);
        assert(s.contains(s[n - 1]));
    }
    lemma_lines_front(line, rest);
    assert(lines(s) == seq![line] + lines(rest));
    lemma_no_feeds(line);
    lemma_feeds_joined(line.push('\n'), rest);
    assert(line.push('\n') =~= line + seq!['\n']);
    lemma_feeds_joined(line, seq!['\n']);
    assert(feeds(seq!['\n']) == 1) by {
        assert(seq!['\n'].drop_first() =~= Seq::<char>::empty());
        reveal_with_fuel(feeds, 2);
    }
}

/// Such output is what its lines join to, and has a line feed less than it has lines.
proof fn lemma_lines_joined(s: Seq<char>)
    requires
        is_trimmed(s),
    ensures
        join_lines(lines(s)) == s,
        s.len() > 0 ==> feeds(s) + 1 == lines(s).len(),
    decreases s.len(),
{
    lemma_first_newline(s);
    if s.len() > 0 && first_newline(s) >= s.len() {
        assert(!s.contains('\n')) by {
            if s.contains('\n') {
                let i = choose|i: int| 0 <= i < s.len() && s[i] == '\n';
                assert(s[i] != '\n');
            }
        }
        lemma_no_feeds(s);
        assert(lines(s) =~= seq![s]);
    } else if s.len() > 0 {
        lemma_first_line(s);
        let line = s.take(first_newline(s));
        let rest = s.skip(first_newline(s) + 1);
        lemma_lines_joined(rest);
        lemma_join_front(line, lines(rest));
    } else {
        assert(join_lines(lines(s)) =~= s);
    }
}

/// Which end of `s` the last `keep` lines are.
#[verifier::rlimit(40)]
proof fn lemma_last_lines_start(s: Seq<char>, keep: nat) -> (start: int)
    requires
        is_trimmed(s),
        keep > 0,
    ensures
        0 <= start <= s.len(),
        join_lines(last_lines(lines(s), keep)) == s.skip(start),
        s.len() > 0 ==> start < s.len() && feeds(s.skip(start)) < keep,
        start > 0 ==> s[start - 1] == '\n' && feeds(s.skip(start)) + 1 == keep,
    decreases s.len(),
{
    lemma_lines_joined(s);
    assert(s.skip(0) =~= s);
    if lines(s).len() <= keep {
        0
    } else {
        lemma_first_newline(s);
        if first_newline(s) >= s.len() {
            assert(lines(s).len() <= 1);
        }
        lemma_first_line(s);
        let n = first_newline(s);
        let rest = s.skip(n + 1);
        let inner = lemma_last_lines_start(rest, keep);
        assert(last_lines(lines(s), keep) =~= last_lines(lines(rest), keep));
        assert(rest.skip(inner) =~= s.skip(n + 1 + inner));
        if inner > 0 {
            assert(rest[inner - 1] == s[n + inner]);
        } else {
            lemma_lines_joined(rest);
            assert(rest.skip(0) =~= rest);
        }
        n + 1 + inner
    }
}

/// What a failed popup shows of output without carriage returns, behind the reason and a blank line:
/// an end of it without the whitespace behind, of no more lines than there are rows below the blank
/// line and of no more bytes than are looked at. It begins where the output does, or at a line with
/// every row taken, or where one more character would be too many bytes.
#[verifier::rlimit(40)]
pub proof fn law_failure_shows_end_of_output(
    message: String,
    output: &str,
    rows: u16,
    text: String,
    end: int,
    tail: Seq<char>,
)
    requires
        call_ensures(failure_text, (message, output, rows), text),
        has_no_controls(message@) && message@.len() <= 4096,
        !output@.contains('\r'),
        0 <= end <= output@.len(),
        end > 0 ==> !crate::text::is_whitespace(output@[end - 1]),
        forall|i: int| end <= i < output@.len() ==> crate::text::is_whitespace(#[trigger] output@[i]),
        tail == text@.skip((message@.len() + 2) as int),
    ensures
        text@ == message@ + seq!['\n', '\n'] + tail,
        tail.len() <= end,
        tail == output@.subrange(end - tail.len(), end),
        encode_utf8(tail).len() <= 65536,
        rows <= 2 ==> tail.len() == 0,
        rows > 2 ==> feeds(tail) + 3 <= rows,
        rows > 2 && tail.len() < end ==> {
            ||| output@[end - tail.len() - 1] == '\n' && feeds(tail) + 3 == rows
            ||| encode_utf8(output@.subrange(end - tail.len() - 1, end)).len() > 65536
        },
{
    lemma_unfiltered(message@);
    lemma_trimmed(output@);
    let trimmed = trim_end(output@);
    if trimmed.len() < end {
        assert(crate::text::is_whitespace(output@[end - 1]));
    }
    if trimmed.len() > end {
        assert(trimmed.last() == output@[trimmed.len() - 1]);
        assert(crate::text::is_whitespace(output@[trimmed.len() - 1]));
    }
    assert(trimmed.len() == end);
    let cut = suffix_within(trimmed, 65536);
    lemma_suffix_is_suffix(trimmed, 65536);
    lemma_no_longer_end(trimmed, 65536);
    let from = end - cut.len();
    assert(cut =~= output@.subrange(from, end));
    assert(!cut.contains('\r')) by {
        if cut.contains('\r') {
            let i = choose|i: int| 0 <= i < cut.len() && cut[i] == '\r';
            assert(output@[from + i] == '\r');
        }
    }
    if cut.len() > 0 {
        assert(cut.last() == output@[end - 1]);
    }
    let kept = last_lines(lines(cut), if rows < 2 { 0 } else { (rows - 2) as nat });
    let joined = join_lines(kept);
    assert(text@ =~= message@ + seq!['\n', '\n'] + joined);
    assert(tail =~= joined);
    if rows <= 2 {
        assert(kept.len() == 0);
        assert(encode_utf8(tail).len() == 0);
    } else {
        let start = lemma_last_lines_start(cut, (rows - 2) as nat);
        assert(cut.skip(start) =~= output@.subrange(from + start, end));
        assert(tail =~= output@.subrange(end - tail.len(), end));
        crate::text::lemma_encoding_shrinks(cut, start);
        if start > 0 {
            assert(cut[start - 1] == output@[from + start - 1]);
        } else if from > 0 {
            assert(trimmed.skip(from - 1) =~= output@.subrange(from - 1, end));
        }
    }
}

} // verus!
