//! Text that is safe to paint in a popup: filtering, trimming, and cutting to the last lines.
use vstd::prelude::*;
use vstd::utf8::*;

verus! {

/// A control character: general category Cc of Unicode.
pub open spec fn is_control(c: char) -> bool {
    c as u32 <= 0x1f || 0x7f <= c as u32 <= 0x9f
}

/// A character of the White_Space property of Unicode.
pub open spec fn is_whitespace(c: char) -> bool {
    let u = c as u32;
    ||| 0x9 <= u <= 0xd
    ||| u == 0x20
    ||| u == 0x85
    ||| u == 0xa0
    ||| u == 0x1680
    ||| 0x2000 <= u <= 0x200a
    ||| u == 0x2028
    ||| u == 0x2029
    ||| u == 0x202f
    ||| u == 0x205f
    ||| u == 0x3000
}

/// `char::is_control` tells the control codes, the characters of general category Cc: U+0000
/// to U+001F and U+007F to U+009F.
pub assume_specification[ char::is_control ](c: char) -> (control: bool)
    ensures
        control == is_control(c),
;

/// `char::is_whitespace` tells the characters that have the White_Space property.
pub assume_specification[ char::is_whitespace ](c: char) -> (whitespace: bool)
    ensures
        whitespace == is_whitespace(c),
;

/// `String::push` appends one character.
pub assume_specification[ String::push ](s: &mut String, ch: char)
    ensures
        final(s)@ == old(s)@.push(ch),
;

/// What may stand in a popup: anything but control characters, and the line feed.
pub open spec fn is_safe_char(c: char) -> bool {
    !is_control(c) || c == '\n'
}

pub open spec fn is_safe(s: Seq<char>) -> bool {
    forall|i: int| 0 <= i < s.len() ==> is_safe_char(#[trigger] s[i])
}

/// `s` without its unsafe characters, in order.
pub open spec fn safe_chars(s: Seq<char>) -> Seq<char> {
    s.filter(|c: char| is_safe_char(c))
}

/// `s` without its trailing whitespace.
pub open spec fn trim_end(s: Seq<char>) -> Seq<char>
    decreases s.len(),
{
    if s.len() > 0 && is_whitespace(s.last()) {
        trim_end(s.drop_last())
    } else {
        s
    }
}

/// The longest suffix of `s` whose UTF-8 encoding has at most `limit` bytes.
pub open spec fn suffix_within(s: Seq<char>, limit: nat) -> Seq<char>
    decreases s.len(),
{
    if s.len() == 0 || encode_utf8(s).len() <= limit {
        s
    } else {
        suffix_within(s.drop_first(), limit)
    }
}

/// The position of the first line feed of `s`, or the length of `s` where there is none.
pub open spec fn first_newline(s: Seq<char>) -> int
    decreases s.len(),
{
    if s.len() == 0 || s[0] == '\n' {
        0
    } else {
        1 + first_newline(s.drop_first())
    }
}

/// `s` without the carriage return that ends it, if one does.
pub open spec fn strip_cr(s: Seq<char>) -> Seq<char> {
    if s.len() > 0 && s.last() == '\r' {
        s.drop_last()
    } else {
        s
    }
}

/// The lines of `s`: each ends in a line feed, or in a carriage return and a line feed, which
/// are not part of it; the last line needs no ending.
pub open spec fn lines(s: Seq<char>) -> Seq<Seq<char>>
    decreases s.len(),
    via lines_decreases
{
    if s.len() == 0 {
        seq![]
    } else if first_newline(s) >= s.len() {
        seq![s]
    } else {
        seq![strip_cr(s.take(first_newline(s)))] + lines(s.skip(first_newline(s) + 1))
    }
}

#[via_fn]
proof fn lines_decreases(s: Seq<char>) {
    lemma_first_newline(s);
}

/// The lines `ls` with one line feed between each two.
pub open spec fn join_lines(ls: Seq<Seq<char>>) -> Seq<char>
    decreases ls.len(),
{
    if ls.len() == 0 {
        seq![]
    } else if ls.len() == 1 {
        ls[0]
    } else {
        join_lines(ls.drop_last()).push('\n') + ls.last()
    }
}

/// The last `keep` lines of `ls`, or all of them where there are fewer.
pub open spec fn last_lines(ls: Seq<Seq<char>>, keep: nat) -> Seq<Seq<char>> {
    if ls.len() <= keep {
        ls
    } else {
        ls.skip(ls.len() - keep)
    }
}

/// The first `limit` characters of `s`, or all of them where there are fewer.
pub open spec fn first_chars(s: Seq<char>, limit: nat) -> Seq<char> {
    if s.len() <= limit {
        s
    } else {
        s.take(limit as int)
    }
}

pub(crate) proof fn lemma_first_newline(s: Seq<char>)
    ensures
        0 <= first_newline(s) <= s.len(),
        first_newline(s) < s.len() ==> s[first_newline(s)] == '\n',
        forall|i: int| 0 <= i < first_newline(s) ==> s[i] != '\n',
    decreases s.len(),
{
    if s.len() > 0 && s[0] != '\n' {
        let rest = s.drop_first();
        lemma_first_newline(rest);
        assert forall|i: int| 0 <= i < first_newline(s) implies s[i] != '\n' by {
            if i > 0 {
                assert(s[i] == rest[i - 1]);
            }
        }
    }
}

/// The position `n` is where the first line feed stands, if it is the first one.
proof fn lemma_first_newline_at(s: Seq<char>, n: int)
    requires
        0 <= n <= s.len(),
        n < s.len() ==> s[n] == '\n',
        forall|i: int| 0 <= i < n ==> s[i] != '\n',
    ensures
        first_newline(s) == n,
{
    lemma_first_newline(s);
    let f = first_newline(s);
    if f < n {
        assert(s[f] == '\n');
    } else if n < f {
        assert(s[n] == '\n');
    }
}

/// Takes the control characters out of `text`, but for the line feeds.
pub fn safe_text(text: String) -> (safe: String)
    ensures
        safe@ == safe_chars(text@),
{
    let mut safe = String::new();
    for c in it: text.as_str().chars()
        invariant
            it.seq() == text@,
            safe@ == safe_chars(it.seq().take(it.index() as int)),
    {
        proof {
            let seen = it.seq().take(it.index() as int);
            assert(it.seq().take(it.index() + 1) =~= seen.push(c));
            seen.lemma_filter_push(c, |c: char| is_safe_char(c));
        }
        if !c.is_control() || c == '\n' {
            safe.push(c);
        }
    }
    assert(text@.take(text@.len() as int) =~= text@);
    safe
}

/// The characters of `text`, one by one.
pub fn to_chars(text: &str) -> (chars: Vec<char>)
    ensures
        chars@ == text@,
{
    let mut chars: Vec<char> = Vec::new();
    for c in it: text.chars()
        invariant
            it.seq() == text@,
            chars@ == it.seq().take(it.index() as int),
    {
        chars.push(c);
    }
    chars
}

/// The string that `chars` spell.
pub fn from_chars(chars: &Vec<char>) -> (text: String)
    ensures
        text@ == chars@,
{
    let mut text = String::new();
    let mut i: usize = 0;
    while i < chars.len()
        invariant
            i <= chars.len(),
            text@ == chars@.take(i as int),
        decreases chars.len() - i,
    {
        text.push(chars[i]);
        i += 1;
    }
    assert(chars@.take(i as int) =~= chars@);
    text
}

/// Cuts the trailing whitespace off `chars`.
pub fn trim_end_chars(chars: &mut Vec<char>)
    ensures
        final(chars)@ == trim_end(old(chars)@),
{
    while chars.len() > 0 && chars[chars.len() - 1].is_whitespace()
        invariant
            trim_end(chars@) == trim_end(old(chars)@),
        decreases chars.len(),
    {
        assert(chars@.drop_last() =~= chars@.take(chars.len() - 1));
        let _ = chars.pop();
    }
}

/// The number of bytes of `c` in UTF-8.
fn utf8_width(c: char) -> (width: usize)
    ensures
        width == encode_scalar(c as u32).len(),
        1 <= width <= 4,
{
    broadcast use char_is_scalar;

    let u: u32 = c as u32;
    if u <= 0x7f {
        1
    } else if u <= 0x7ff {
        2
    } else if u <= 0xffff {
        3
    } else {
        4
    }
}

/// Dropping characters from the front only shortens the encoding.
pub(crate) proof fn lemma_encoding_shrinks(s: Seq<char>, i: int)
    requires
        0 <= i <= s.len(),
    ensures
        encode_utf8(s.skip(i)).len() <= encode_utf8(s).len(),
    decreases i,
{
    if i > 0 {
        lemma_encoding_shrinks(s.drop_first(), i - 1);
        assert(s.drop_first().skip(i - 1) =~= s.skip(i));
    } else {
        assert(s.skip(0) =~= s);
    }
}

/// The suffix from `start` on is the one sought, if it fits and the one before it does not.
proof fn lemma_suffix_within(s: Seq<char>, limit: nat, start: int)
    requires
        0 <= start <= s.len(),
        encode_utf8(s.skip(start)).len() <= limit,
        start > 0 ==> encode_utf8(s.skip(start - 1)).len() > limit,
    ensures
        suffix_within(s, limit) == s.skip(start),
    decreases start,
{
    assert(s.skip(0) =~= s);
    if start > 0 {
        lemma_encoding_shrinks(s, start - 1);
        let rest = s.drop_first();
        assert(rest.skip(start - 1) =~= s.skip(start));
        if start > 1 {
            assert(rest.skip(start - 2) =~= s.skip(start - 1));
        }
        lemma_suffix_within(rest, limit, start - 1);
    }
}

/// Keeps the longest suffix of `chars` that has at most `limit` bytes in UTF-8.
pub fn keep_suffix(chars: &mut Vec<char>, limit: usize)
    ensures
        final(chars)@ == suffix_within(old(chars)@, limit as nat),
{
    let ghost whole = chars@;
    let mut start: usize = chars.len();
    let mut size: usize = 0;
    let mut full: bool = false;
    assert(whole.skip(whole.len() as int).len() == 0);
    while start > 0 && !full
        invariant
            chars@ == whole,
            start <= whole.len(),
            size == encode_utf8(whole.skip(start as int)).len(),
            size <= limit,
            full ==> start > 0 && encode_utf8(whole.skip(start - 1)).len() > limit,
        decreases start, if full { 0int } else { 1int },
    {
        let width = utf8_width(chars[start - 1]);
        proof {
            let longer = whole.skip(start - 1);
            assert(longer[0] == whole[start - 1]);
            assert(longer.drop_first() =~= whole.skip(start as int));
        }
        if width <= limit - size {
            size += width;
            start -= 1;
        } else {
            full = true;
        }
    }
    proof {
        lemma_suffix_within(whole, limit as nat, start as int);
    }
    let kept = chars.split_off(start);
    *chars = kept;
}

/// Splits `chars` into lines.
pub fn split_lines(chars: &Vec<char>) -> (split: Vec<Vec<char>>)
    ensures
        split.deep_view() == lines(chars@),
{
    let mut split: Vec<Vec<char>> = Vec::new();
    let mut start: usize = 0;
    assert(chars@.skip(0) =~= chars@);
    assert(split.deep_view() + lines(chars@) =~= lines(chars@));
    while start < chars.len()
        invariant
            start <= chars.len(),
            split.deep_view() + lines(chars@.skip(start as int)) == lines(chars@),
        decreases chars.len() - start,
    {
        let ghost rest = chars@.skip(start as int);
        let ghost before = split.deep_view();
        let mut line: Vec<char> = Vec::new();
        let mut end: usize = start;
        while end < chars.len() && chars[end] != '\n'
            invariant
                start <= end <= chars.len(),
                rest == chars@.skip(start as int),
                line@ == rest.take(end - start),
                forall|i: int| 0 <= i < end - start ==> rest[i] != '\n',
            decreases chars.len() - end,
        {
            line.push(chars[end]);
            end += 1;
        }
        proof {
            lemma_first_newline_at(rest, end - start);
        }
        if end < chars.len() {
            if line.len() > 0 && line[line.len() - 1] == '\r' {
                let _ = line.pop();
            }
            assert(line@ =~= strip_cr(rest.take(end - start)));
            end += 1;
            assert(chars@.skip(end as int) =~= rest.skip(end - start));
        } else {
            assert(line@ =~= rest);
        }
        let ghost this = line@;
        assert(line.deep_view() =~= this);
        split.push(line);
        start = end;
        proof {
            assert(split.deep_view() =~= before.push(this));
            assert(before.push(this) + lines(chars@.skip(start as int)) =~= before + (seq![this]
                + lines(chars@.skip(start as int))));
        }
    }
    assert(chars@.skip(start as int).len() == 0);
    assert(split.deep_view() + lines(chars@.skip(start as int)) =~= split.deep_view());
    split
}

/// Joins the last `keep` lines of `split`.
pub fn join_last(split: &Vec<Vec<char>>, keep: usize) -> (joined: Vec<char>)
    ensures
        joined@ == join_lines(last_lines(split.deep_view(), keep as nat)),
{
    let first: usize = if split.len() <= keep {
        0
    } else {
        split.len() - keep
    };
    let ghost kept = last_lines(split.deep_view(), keep as nat);
    assert(kept =~= split.deep_view().skip(first as int));
    let mut joined: Vec<char> = Vec::new();
    let mut i: usize = first;
    while i < split.len()
        invariant
            first <= i <= split.len(),
            kept == split.deep_view().skip(first as int),
            joined@ == join_lines(kept.take(i - first)),
        decreases split.len() - i,
    {
        let ghost done = kept.take(i - first);
        if i > first {
            joined.push('\n');
        }
        let mut line = split[i].clone();
        proof {
            assert(line@ =~= split[i as int]@);
            assert(split.deep_view()[i as int] == split[i as int].deep_view());
            assert(split[i as int].deep_view() =~= split[i as int]@);
            assert(kept.take(i - first + 1).drop_last() =~= done);
            assert(kept.take(i - first + 1).last() == split[i as int]@);
        }
        joined.append(&mut line);
        i += 1;
        assert(joined@ =~= join_lines(kept.take(i - first)));
    }
    assert(kept.take(i - first) =~= kept);
    joined
}

/// How many characters of the reason a failed popup shows.
pub const REASON_CHARS: usize = 4096;

/// How many bytes of the last output a failed popup looks at.
pub const OUTPUT_BYTES: usize = 65536;

/// The rows of a failed popup that are left for output, below the reason and a blank line.
pub open spec fn output_rows(rows: u16) -> nat {
    if rows < 2 {
        0
    } else {
        (rows - 2) as nat
    }
}

/// The last lines of `output` that a failed popup of `rows` rows keeps.
pub open spec fn kept_lines(output: Seq<char>, rows: u16) -> Seq<Seq<char>> {
    last_lines(lines(suffix_within(trim_end(output), OUTPUT_BYTES as nat)), output_rows(rows))
}

/// The reason that a failed popup shows.
pub open spec fn reason_chars(message: Seq<char>) -> Seq<char> {
    first_chars(safe_chars(message), REASON_CHARS as nat)
}

/// What a popup of `rows` rows says once it has failed for the reason `message`, with `output`
/// on it: the reason, a blank line, and the last lines of the output.
pub open spec fn failure_chars(message: Seq<char>, output: Seq<char>, rows: u16) -> Seq<char> {
    reason_chars(message) + seq!['\n', '\n'] + join_lines(kept_lines(output, rows))
}

/// The text of a popup of `rows` rows that shows `output` and fails for the reason `message`.
pub fn failure_text(message: String, output: &str, rows: u16) -> (text: String)
    ensures
        text@ == failure_chars(message@, output@, rows),
{
    let safe = safe_text(message);
    let mut shown = to_chars(safe.as_str());
    if shown.len() > REASON_CHARS {
        shown.truncate(REASON_CHARS);
    }
    let keep: usize = rows.saturating_sub(2) as usize;
    let mut tail = to_chars(output);
    trim_end_chars(&mut tail);
    keep_suffix(&mut tail, OUTPUT_BYTES);
    let split = split_lines(&tail);
    let mut joined = join_last(&split, keep);
    shown.push('\n');
    shown.push('\n');
    shown.append(&mut joined);
    assert(shown@ =~= failure_chars(message@, output@, rows));
    from_chars(&shown)
}

/// Filtering leaves only safe characters, takes no safe character away, and changes nothing
/// the second time.
pub proof fn law_safe_text(s: Seq<char>)
    ensures
        is_safe(safe_chars(s)),
        forall|i: int|
            0 <= i < s.len() && is_safe_char(s[i]) ==> safe_chars(s).contains(#[trigger] s[i]),
        is_safe(s) ==> safe_chars(s) == s,
        safe_chars(safe_chars(s)) == safe_chars(s),
{
    let pred = |c: char| is_safe_char(c);
    assert forall|i: int| 0 <= i < safe_chars(s).len() implies is_safe_char(
        #[trigger] safe_chars(s)[i],
    ) by {
        s.lemma_filter_pred(pred, i);
    }
    assert forall|i: int| 0 <= i < s.len() && is_safe_char(s[i]) implies safe_chars(s).contains(
        #[trigger] s[i],
    ) by {
        s.lemma_filter_contains(pred, i);
    }
    if is_safe(s) {
        lemma_safe_unchanged(s);
    }
    lemma_safe_unchanged(safe_chars(s));
}

proof fn lemma_safe_unchanged(s: Seq<char>)
    requires
        is_safe(s),
    ensures
        safe_chars(s) == s,
    decreases s.len(),
{
    reveal(Seq::filter);
    if s.len() > 0 {
        lemma_safe_unchanged(s.drop_last());
        assert(is_safe_char(s.last()));
        assert(safe_chars(s) =~= s);
    }
}

pub(crate) proof fn lemma_trim_end_prefix(s: Seq<char>)
    ensures
        trim_end(s).len() <= s.len(),
        trim_end(s) == s.take(trim_end(s).len() as int),
    decreases s.len(),
{
    if s.len() > 0 && is_whitespace(s.last()) {
        lemma_trim_end_prefix(s.drop_last());
        assert(s.drop_last().take(trim_end(s).len() as int) =~= s.take(trim_end(s).len() as int));
    } else {
        assert(s.take(s.len() as int) =~= s);
    }
}

pub(crate) proof fn lemma_suffix_is_suffix(s: Seq<char>, limit: nat)
    ensures
        suffix_within(s, limit).len() <= s.len(),
        suffix_within(s, limit) == s.skip(s.len() - suffix_within(s, limit).len()),
        encode_utf8(suffix_within(s, limit)).len() <= limit,
    decreases s.len(),
{
    if s.len() == 0 || encode_utf8(s).len() <= limit {
        assert(s.skip(0) =~= s);
    } else {
        let rest = s.drop_first();
        lemma_suffix_is_suffix(rest, limit);
        let kept = suffix_within(s, limit).len();
        assert(rest.skip(rest.len() - kept) =~= s.skip(s.len() - kept));
    }
}

/// Each character takes a byte at least.
proof fn lemma_encoding_covers(s: Seq<char>)
    ensures
        s.len() <= encode_utf8(s).len(),
    decreases s.len(),
{
    if s.len() > 0 {
        lemma_encoding_covers(s.drop_first());
    }
}

proof fn lemma_lines_safe(s: Seq<char>)
    requires
        is_safe(s),
    ensures
        forall|i: int| 0 <= i < lines(s).len() ==> is_safe(#[trigger] lines(s)[i]),
    decreases s.len(),
{
    lemma_first_newline(s);
    let n = first_newline(s);
    if s.len() > 0 && n < s.len() {
        let rest = s.skip(n + 1);
        assert(is_safe(rest));
        lemma_lines_safe(rest);
        assert(is_safe(strip_cr(s.take(n))));
        assert forall|i: int| 0 <= i < lines(s).len() implies is_safe(#[trigger] lines(s)[i]) by {
            if i > 0 {
                assert(lines(s)[i] == lines(rest)[i - 1]);
            }
        }
    }
}

proof fn lemma_join_safe(ls: Seq<Seq<char>>)
    requires
        forall|i: int| 0 <= i < ls.len() ==> is_safe(#[trigger] ls[i]),
    ensures
        is_safe(join_lines(ls)),
    decreases ls.len(),
{
    if ls.len() > 1 {
        let front = ls.drop_last();
        assert forall|i: int| 0 <= i < front.len() implies is_safe(#[trigger] front[i]) by {
            assert(front[i] == ls[i]);
        }
        lemma_join_safe(front);
        assert(is_safe(ls.last()));
    }
}

/// A failed popup shows only safe text where it showed only safe text before.
pub proof fn law_failure_text_safe(message: Seq<char>, output: Seq<char>, rows: u16)
    requires
        is_safe(output),
    ensures
        is_safe(failure_chars(message, output, rows)),
{
    law_safe_text(message);
    lemma_trim_end_prefix(output);
    let trimmed = trim_end(output);
    assert(is_safe(trimmed));
    lemma_suffix_is_suffix(trimmed, OUTPUT_BYTES as nat);
    let cut = suffix_within(trimmed, OUTPUT_BYTES as nat);
    assert(is_safe(cut));
    lemma_lines_safe(cut);
    let kept = kept_lines(output, rows);
    assert forall|i: int| 0 <= i < kept.len() implies is_safe(#[trigger] kept[i]) by {
        let skipped = lines(cut).len() - kept.len();
        assert(kept[i] == lines(cut)[skipped + i]);
    }
    lemma_join_safe(kept);
}

proof fn lemma_encoding_joined(a: Seq<char>, b: Seq<char>)
    ensures
        encode_utf8(a + b).len() == encode_utf8(a).len() + encode_utf8(b).len(),
    decreases a.len(),
{
    if a.len() == 0 {
        assert(a + b =~= b);
    } else {
        lemma_encoding_joined(a.drop_first(), b);
        assert((a + b).drop_first() =~= a.drop_first() + b);
        assert((a + b)[0] == a[0]);
    }
}

/// Each character takes four bytes at most.
proof fn lemma_encoding_bounded(s: Seq<char>)
    ensures
        encode_utf8(s).len() <= 4 * s.len(),
    decreases s.len(),
{
    broadcast use char_is_scalar;

    if s.len() > 0 {
        lemma_encoding_bounded(s.drop_first());
    }
}

proof fn lemma_prefix_encoding(s: Seq<char>, i: int)
    requires
        0 <= i <= s.len(),
    ensures
        encode_utf8(s.take(i)).len() <= encode_utf8(s).len(),
{
    lemma_encoding_joined(s.take(i), s.skip(i));
    assert(s.take(i) + s.skip(i) =~= s);
}

/// Joining lines in front: the first one, a line feed, and the others.
pub(crate) proof fn lemma_join_front(line: Seq<char>, rest: Seq<Seq<char>>)
    requires
        rest.len() > 0,
    ensures
        join_lines(seq![line] + rest) == line.push('\n') + join_lines(rest),
    decreases rest.len(),
{
    let ls = seq![line] + rest;
    assert(ls.last() == rest.last());
    assert(ls.drop_last() =~= seq![line] + rest.drop_last());
    if rest.len() == 1 {
        assert(ls.drop_last() =~= seq![line]);
        assert(join_lines(seq![line]) == line);
    } else {
        lemma_join_front(line, rest.drop_last());
    }
    assert(join_lines(ls) =~= line.push('\n') + join_lines(rest));
}

/// Joined lines take no more bytes than what they were split from.
proof fn lemma_joined_lines_encoded(s: Seq<char>)
    ensures
        encode_utf8(join_lines(lines(s))).len() <= encode_utf8(s).len(),
    decreases s.len(),
{
    lemma_first_newline(s);
    let n = first_newline(s);
    if s.len() > 0 && n < s.len() {
        let rest = s.skip(n + 1);
        let line = strip_cr(s.take(n));
        lemma_joined_lines_encoded(rest);
        assert(s =~= s.take(n).push('\n') + rest);
        lemma_encoding_joined(s.take(n).push('\n'), rest);
        assert(s.take(n).push('\n') =~= s.take(n) + seq!['\n']);
        lemma_encoding_joined(s.take(n), seq!['\n']);
        if s.take(n).len() > 0 {
            lemma_prefix_encoding(s.take(n), s.take(n).len() - 1);
            assert(s.take(n).take(s.take(n).len() - 1) =~= s.take(n).drop_last());
        }
        if lines(rest).len() > 0 {
            lemma_join_front(line, lines(rest));
            lemma_encoding_joined(line.push('\n'), join_lines(lines(rest)));
            assert(line.push('\n') =~= line + seq!['\n']);
            lemma_encoding_joined(line, seq!['\n']);
        } else {
            assert(lines(s) =~= seq![line]);
        }
    }
}

/// Fewer lines take fewer bytes.
proof fn lemma_join_suffix_encoded(ls: Seq<Seq<char>>, k: int)
    requires
        0 <= k <= ls.len(),
    ensures
        encode_utf8(join_lines(ls.skip(k))).len() <= encode_utf8(join_lines(ls)).len(),
    decreases k,
{
    if k == 0 {
        assert(ls.skip(0) =~= ls);
    } else {
        let rest = ls.drop_first();
        lemma_join_suffix_encoded(rest, k - 1);
        assert(rest.skip(k - 1) =~= ls.skip(k));
        if rest.len() > 0 {
            lemma_join_front(ls[0], rest);
            assert(seq![ls[0]] + rest =~= ls);
            lemma_encoding_joined(ls[0].push('\n'), join_lines(rest));
        } else {
            assert(ls.skip(k).len() == 0);
        }
    }
}

/// A line without a line feed of its own, put in front, is the first of the lines.
pub(crate) proof fn lemma_lines_front(line: Seq<char>, rest: Seq<char>)
    requires
        !line.contains('\n'),
    ensures
        lines(line.push('\n') + rest) == seq![strip_cr(line)] + lines(rest),
{
    let s = line.push('\n') + rest;
    let n = line.len() as int;
    assert forall|i: int| 0 <= i < n implies s[i] != '\n' by {
        assert(s[i] == line[i]);
        assert(line.contains(line[i]));
    }
    assert(s[n] == '\n');
    lemma_first_newline_at(s, n);
    assert(s.take(n) =~= line);
    assert(s.skip(n + 1) =~= rest);
}

/// Lines without line feeds of their own do not become more by being joined.
proof fn lemma_rejoined_lines(ls: Seq<Seq<char>>)
    requires
        forall|i: int| 0 <= i < ls.len() ==> !(#[trigger] ls[i]).contains('\n'),
    ensures
        lines(join_lines(ls)).len() <= ls.len(),
    decreases ls.len(),
{
    if ls.len() == 1 {
        let only = ls[0];
        lemma_first_newline(only);
        if first_newline(only) < only.len() {
            assert(only.contains(only[first_newline(only)]));
        }
    } else if ls.len() > 1 {
        let rest = ls.drop_first();
        assert forall|i: int| 0 <= i < rest.len() implies !(#[trigger] rest[i]).contains('\n') by {
            assert(rest[i] == ls[i + 1]);
        }
        lemma_rejoined_lines(rest);
        lemma_join_front(ls[0], rest);
        assert(seq![ls[0]] + rest =~= ls);
        lemma_lines_front(ls[0], join_lines(rest));
    }
}

proof fn lemma_lines_have_no_feed(s: Seq<char>)
    ensures
        forall|i: int| 0 <= i < lines(s).len() ==> !(#[trigger] lines(s)[i]).contains('\n'),
    decreases s.len(),
{
    lemma_first_newline(s);
    let n = first_newline(s);
    if s.len() > 0 && n < s.len() {
        let rest = s.skip(n + 1);
        lemma_lines_have_no_feed(rest);
        assert forall|i: int| 0 <= i < lines(s).len() implies !(#[trigger] lines(s)[i]).contains(
            '\n',
        ) by {
            if i > 0 {
                assert(lines(s)[i] == lines(rest)[i - 1]);
            } else {
                let line = strip_cr(s.take(n));
                assert forall|j: int| 0 <= j < line.len() implies line[j] != '\n' by {
                    assert(line[j] == s[j]);
                }
            }
        }
    } else if s.len() > 0 {
        assert forall|j: int| 0 <= j < s.len() implies s[j] != '\n' by {}
    }
}

/// What a failed popup shows is bounded, however long the reason and the output were: in
/// characters, and in bytes; the output has at most as many lines as the popup has rows below the
/// reason and the blank line.
pub proof fn law_failure_text_bounded(message: Seq<char>, output: Seq<char>, rows: u16)
    ensures
        kept_lines(output, rows).len() <= output_rows(rows),
        failure_chars(message, output, rows).len() <= REASON_CHARS + 2 + OUTPUT_BYTES,
        encode_utf8(failure_chars(message, output, rows)).len() <= 4 * REASON_CHARS + 2
            + OUTPUT_BYTES,
{
    let trimmed = trim_end(output);
    let cut = suffix_within(trimmed, OUTPUT_BYTES as nat);
    lemma_suffix_is_suffix(trimmed, OUTPUT_BYTES as nat);
    lemma_joined_lines_encoded(cut);
    let all = lines(cut);
    let kept = kept_lines(output, rows);
    assert(all.skip(0) =~= all);
    assert(kept == all.skip(all.len() - kept.len()));
    lemma_join_suffix_encoded(all, all.len() - kept.len());
    let tail = join_lines(kept);
    lemma_encoding_covers(tail);
    let reason = reason_chars(message);
    lemma_encoding_bounded(reason);
    let blank = seq!['\n', '\n'];
    lemma_encoding_joined(reason + blank, tail);
    lemma_encoding_joined(reason, blank);
    assert(blank =~= seq!['\n'] + seq!['\n']);
    lemma_encoding_joined(seq!['\n'], seq!['\n']);
    lemma_newline_is_a_byte();
}

proof fn lemma_newline_is_a_byte()
    ensures
        encode_utf8(seq!['\n']).len() == 1,
{
    assert(seq!['\n'].drop_first() =~= seq![]);
    reveal_with_fuel(encode_utf8, 2);
}

/// Where the reason is one line, a failed popup of two rows or more has a row for each line that it
/// shows.
pub proof fn law_failure_text_fits(message: Seq<char>, output: Seq<char>, rows: u16)
    requires
        rows >= 2,
        !reason_chars(message).contains('\n'),
    ensures
        lines(failure_chars(message, output, rows)).len() <= rows,
{
    let reason = reason_chars(message);
    let cut = suffix_within(trim_end(output), OUTPUT_BYTES as nat);
    let all = lines(cut);
    let kept = kept_lines(output, rows);
    lemma_lines_have_no_feed(cut);
    assert forall|i: int| 0 <= i < kept.len() implies !(#[trigger] kept[i]).contains('\n') by {
        assert(kept[i] == all[all.len() - kept.len() + i]);
    }
    lemma_rejoined_lines(kept);
    let tail = join_lines(kept);
    let empty = Seq::<char>::empty();
    lemma_lines_front(empty, tail);
    lemma_lines_front(reason, empty.push('\n') + tail);
    assert(failure_chars(message, output, rows) =~= reason.push('\n') + (empty.push('\n') + tail));
}

} // verus!
