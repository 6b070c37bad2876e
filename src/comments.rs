//! Removal of full-line `#` comments from a text, before it is decoded.
use vstd::prelude::*;
use vstd::utf8::encode_utf8;

verus! {

/// The byte that ends a line.
pub const NEWLINE: u8 = 10;

/// The byte that may stand before a newline, as in `\r\n`.
pub const CARRIAGE_RETURN: u8 = 13;

/// The byte that opens a comment line when it is the line's first.
pub const HASH: u8 = 35;

/// The number of bytes before the first newline of `t`, or the length of `t`
/// when it holds none.
pub open spec fn first_line_len(t: Seq<u8>) -> nat
    decreases t.len(),
{
    if t.len() == 0 {
        0
    } else if t[0] == NEWLINE {
        0
    } else {
        1 + first_line_len(t.drop_first())
    }
}

/// A line is a comment when its first byte is `#`.
pub open spec fn is_comment_line(line: Seq<u8>) -> bool {
    line.len() > 0 && line[0] == HASH
}

/// What a line that ended in a newline keeps: a `\r` just before the
/// newline belongs to the line ending.
pub open spec fn without_cr(line: Seq<u8>) -> Seq<u8> {
    if line.len() > 0 && line.last() == CARRIAGE_RETURN {
        line.drop_last()
    } else {
        line
    }
}

/// What one line contributes to the stripped text: nothing for a comment,
/// else the line itself.
pub open spec fn kept(line: Seq<u8>) -> Seq<u8> {
    if is_comment_line(line) {
        Seq::empty()
    } else {
        line
    }
}

/// The text with every comment line and every line ending removed: the lines
/// that remain, in their order, with nothing between them.
pub open spec fn stripped(t: Seq<u8>) -> Seq<u8>
    decreases t.len(),
{
    if t.len() == 0 {
        Seq::empty()
    } else {
        let k = first_line_len(t);
        if k < t.len() {
            kept(without_cr(t.take(k as int))) + stripped(t.skip(k + 1 as int))
        } else {
            kept(t)
        }
    }
}

proof fn lemma_first_line_len(t: Seq<u8>, k: int)
    requires
        0 <= k <= t.len(),
        forall|j: int| 0 <= j < k ==> t[j] != NEWLINE,
        k == t.len() || t[k] == NEWLINE,
    ensures
        first_line_len(t) == k,
    decreases t.len(),
{
    if t.len() > 0 && t[0] != NEWLINE {
        assert forall|j: int| 0 <= j < k - 1 implies t.drop_first()[j] != NEWLINE by {
            assert(t[j + 1] != NEWLINE);
        }
        lemma_first_line_len(t.drop_first(), k - 1);
    }
}

/// One step of `stripped`: the line that starts at `start` ends at `end`,
/// and what it keeps runs up to `stop`.
proof fn lemma_stripped_step(t: Seq<u8>, start: int, end: int, stop: int)
    requires
        0 <= start < t.len(),
        start <= end <= t.len(),
        forall|j: int| start <= j < end ==> t[j] != NEWLINE,
        end == t.len() || t[end] == NEWLINE,
        stop == if end < t.len() && end > start && t[end - 1] == CARRIAGE_RETURN {
            end - 1
        } else {
            end
        },
    ensures
        end < t.len() ==> stripped(t.skip(start)) == kept(t.subrange(start, stop)) + stripped(
            t.skip(end + 1),
        ),
        end == t.len() ==> stripped(t.skip(start)) == kept(t.subrange(start, stop)),
{
    let rest = t.skip(start);
    assert forall|j: int| 0 <= j < end - start implies rest[j] != NEWLINE by {
        assert(t[start + j] != NEWLINE);
    }
    lemma_first_line_len(rest, end - start);
    if end < t.len() {
        assert(without_cr(rest.take(end - start)) =~= t.subrange(start, stop));
        assert(rest.skip(end - start + 1) =~= t.skip(end + 1));
    } else {
        assert(rest =~= t.subrange(start, stop));
    }
}

/// Appends `b[from..to]` to `out`.
fn push_range(out: &mut Vec<u8>, b: &[u8], from: usize, to: usize)
    requires
        from <= to <= b@.len(),
    ensures
        final(out)@ == old(out)@ + b@.subrange(from as int, to as int),
{
    let mut j: usize = from;
    while j < to
        invariant
            from <= j <= to <= b@.len(),
            out@ == old(out)@ + b@.subrange(from as int, j as int),
        decreases to - j,
    {
        out.push(b[j]);
        j = j + 1;
        assert(b@.subrange(from as int, j as int) =~= b@.subrange(from as int, j - 1) + seq![
            b@[j - 1],
        ]);
    }
}

/// The bytes of `text` with every comment line removed and the remaining
/// lines joined with no separator.
pub fn strip_comments(text: &str) -> (r: Vec<u8>)
    ensures
        r@ == stripped(encode_utf8(text@)),
{
    let b = text.as_bytes();
    let ghost t = b@;
    let n = b.len();
    let mut out: Vec<u8> = Vec::new();
    let mut start: usize = 0;
    assert(t.skip(0) =~= t);
    while start < n
        invariant
            t == b@,
            t == encode_utf8(text@),
            n == t.len(),
            start <= n,
            out@ + stripped(t.skip(start as int)) == stripped(t),
        decreases n - start,
    {
        let mut end: usize = start;
        while end < n && b[end] != NEWLINE
            invariant
                t == b@,
                n == t.len(),
                start <= end <= n,
                forall|j: int| start <= j < end ==> t[j] != NEWLINE,
            decreases n - end,
        {
            end = end + 1;
        }
        let mut stop: usize = end;
        if end < n && end > start && b[end - 1] == CARRIAGE_RETURN {
            stop = end - 1;
        }
        proof {
            lemma_stripped_step(t, start as int, end as int, stop as int);
        }
        let ghost before = out@;
        if !(stop > start && b[start] == HASH) {
            push_range(&mut out, b, start, stop);
        }
        assert(out@ =~= before + kept(t.subrange(start as int, stop as int)));
        if end < n {
            start = end + 1;
        } else {
            assert(t.skip(n as int) =~= Seq::<u8>::empty());
            start = n;
        }
    }
    assert(t.skip(n as int) =~= Seq::<u8>::empty());
    out
}

/// The lines `ls` written one after another, each followed by a newline.
pub open spec fn join_lines(ls: Seq<Seq<u8>>) -> Seq<u8>
    decreases ls.len(),
{
    if ls.len() == 0 {
        Seq::empty()
    } else {
        ls[0] + seq![NEWLINE] + join_lines(ls.drop_first())
    }
}

/// The lines of `ls` that are not comment lines, in their order.
pub open spec fn non_comment_lines(ls: Seq<Seq<u8>>) -> Seq<Seq<u8>>
    decreases ls.len(),
{
    if ls.len() == 0 {
        Seq::empty()
    } else if is_comment_line(ls[0]) {
        non_comment_lines(ls.drop_first())
    } else {
        seq![ls[0]] + non_comment_lines(ls.drop_first())
    }
}

/// `line` holds no newline, so it is one line of a text.
pub open spec fn is_single_line(line: Seq<u8>) -> bool {
    forall|j: int| 0 <= j < line.len() ==> line[j] != NEWLINE
}

/// Stripping a text that begins with the line `line` and its newline.
proof fn lemma_stripped_first_line(line: Seq<u8>, rest: Seq<u8>)
    requires
        is_single_line(line),
    ensures
        stripped(line + seq![NEWLINE] + rest) == kept(without_cr(line)) + stripped(rest),
{
    let t = line + seq![NEWLINE] + rest;
    lemma_first_line_len(t, line.len() as int);
    assert(t.take(line.len() as int) =~= line);
    assert(t.skip(line.len() + 1 as int) =~= rest);
}

/// Comment lines anywhere in a text, before, between or after its other
/// lines, do not change what stripping leaves of it, nor so the document
/// that the text decodes to.
pub proof fn lemma_comment_lines_skipped(ls: Seq<Seq<u8>>, last: Seq<u8>)
    requires
        forall|i: int| 0 <= i < ls.len() ==> is_single_line(#[trigger] ls[i]),
        is_single_line(last),
    ensures
        stripped(join_lines(ls) + last) == stripped(join_lines(non_comment_lines(ls)) + last),
        crate::json::json_parse(stripped(join_lines(ls) + last)) == crate::json::json_parse(
            stripped(join_lines(non_comment_lines(ls)) + last),
        ),
    decreases ls.len(),
{
    if ls.len() > 0 {
        let l = ls[0];
        let rest = ls.drop_first();
        assert(is_single_line(l));
        assert forall|i: int| 0 <= i < rest.len() implies is_single_line(#[trigger] rest[i]) by {
            assert(is_single_line(ls[i + 1]));
        }
        lemma_comment_lines_skipped(rest, last);
        assert(join_lines(ls) + last =~= l + seq![NEWLINE] + (join_lines(rest) + last));
        lemma_stripped_first_line(l, join_lines(rest) + last);
        if is_comment_line(l) {
            assert(kept(without_cr(l)) =~= Seq::<u8>::empty());
            assert(kept(without_cr(l)) + stripped(join_lines(rest) + last) =~= stripped(
                join_lines(rest) + last,
            ));
        } else {
            let nc = non_comment_lines(ls);
            assert(nc =~= seq![l] + non_comment_lines(rest));
            assert(nc.drop_first() =~= non_comment_lines(rest));
            assert(join_lines(nc) + last =~= l + seq![NEWLINE] + (join_lines(
                non_comment_lines(rest),
            ) + last));
            lemma_stripped_first_line(l, join_lines(non_comment_lines(rest)) + last);
        }
    }
}

/// `t` with every newline taken out.
pub open spec fn without_newlines(t: Seq<u8>) -> Seq<u8>
    decreases t.len(),
{
    if t.len() == 0 {
        Seq::empty()
    } else if t[0] == NEWLINE {
        without_newlines(t.drop_first())
    } else {
        seq![t[0]] + without_newlines(t.drop_first())
    }
}

/// No line of `t` is a comment line.
#[verifier::opaque]
pub open spec fn has_no_comment_line(t: Seq<u8>) -> bool {
    forall|i: int|
        0 <= i < t.len() && (i == 0 || t[i - 1] == NEWLINE) ==> #[trigger] t[i] != HASH
}

/// `t` holds no carriage return.
#[verifier::opaque]
pub open spec fn has_no_carriage_return(t: Seq<u8>) -> bool {
    forall|i: int| 0 <= i < t.len() ==> #[trigger] t[i] != CARRIAGE_RETURN
}

proof fn lemma_without_newlines_append(a: Seq<u8>, b: Seq<u8>)
    ensures
        without_newlines(a + b) == without_newlines(a) + without_newlines(b),
    decreases a.len(),
{
    if a.len() > 0 {
        assert((a + b).drop_first() =~= a.drop_first() + b);
        lemma_without_newlines_append(a.drop_first(), b);
        assert(without_newlines(a + b) =~= without_newlines(a) + without_newlines(b));
    } else {
        assert(a + b =~= b);
    }
}

proof fn lemma_without_newlines_single_line(line: Seq<u8>)
    requires
        is_single_line(line),
    ensures
        without_newlines(line) == line,
    decreases line.len(),
{
    if line.len() > 0 {
        lemma_without_newlines_single_line(line.drop_first());
        assert(line =~= seq![line[0]] + line.drop_first());
    }
}

proof fn lemma_first_line_len_bounds(t: Seq<u8>)
    ensures
        first_line_len(t) <= t.len(),
        forall|j: int| 0 <= j < first_line_len(t) ==> t[j] != NEWLINE,
        first_line_len(t) < t.len() ==> t[first_line_len(t) as int] == NEWLINE,
    decreases t.len(),
{
    if t.len() > 0 && t[0] != NEWLINE {
        lemma_first_line_len_bounds(t.drop_first());
        assert forall|j: int| 0 <= j < first_line_len(t) implies t[j] != NEWLINE by {
            if j > 0 {
                assert(t[j] == t.drop_first()[j - 1]);
            }
        }
    }
}

/// The first line of a text with no comment line and no carriage return is
/// kept whole.
proof fn lemma_uncommented_first_line(t: Seq<u8>)
    requires
        t.len() > 0,
        has_no_comment_line(t),
        has_no_carriage_return(t),
    ensures
        is_single_line(t.take(first_line_len(t) as int)),
        kept(without_cr(t.take(first_line_len(t) as int))) == t.take(first_line_len(t) as int),
        first_line_len(t) <= t.len(),
        first_line_len(t) < t.len() ==> t[first_line_len(t) as int] == NEWLINE,
{
    reveal(has_no_comment_line);
    reveal(has_no_carriage_return);
    let k = first_line_len(t);
    lemma_first_line_len_bounds(t);
    let line = t.take(k as int);
    assert(t[0] != HASH);
    if line.len() > 0 {
        assert(line.last() == t[k - 1]);
        assert(line[0] == t[0]);
    }
}

/// What follows the first newline of a text keeps the text's lack of comment
/// lines and of carriage returns.
proof fn lemma_uncommented_rest(t: Seq<u8>, k: int)
    requires
        0 <= k < t.len(),
        t[k] == NEWLINE,
        has_no_comment_line(t),
        has_no_carriage_return(t),
    ensures
        has_no_comment_line(t.skip(k + 1)),
        has_no_carriage_return(t.skip(k + 1)),
{
    reveal(has_no_comment_line);
    reveal(has_no_carriage_return);
    let rest = t.skip(k + 1);
    assert forall|i: int|
        0 <= i < rest.len() && (i == 0 || rest[i - 1] == NEWLINE) implies #[trigger] rest[i]
        != HASH by {
        assert(t[k + 1 + i] != HASH);
    }
    assert forall|i: int| 0 <= i < rest.len() implies #[trigger] rest[i] != CARRIAGE_RETURN by {
        assert(t[k + 1 + i] != CARRIAGE_RETURN);
    }
}

/// Stripping a text with no comment line and no carriage return takes out
/// its newlines and nothing else.
pub proof fn lemma_uncommented_text(t: Seq<u8>)
    requires
        has_no_comment_line(t),
        has_no_carriage_return(t),
    ensures
        stripped(t) == without_newlines(t),
    decreases t.len(),
{
    if t.len() > 0 {
        let k = first_line_len(t);
        lemma_uncommented_first_line(t);
        let line = t.take(k as int);
        lemma_without_newlines_single_line(line);
        if k < t.len() {
            let rest = t.skip(k + 1 as int);
            lemma_uncommented_rest(t, k as int);
            lemma_uncommented_text(rest);
            lemma_stripped_first_line(line, rest);
            let nl_rest = seq![NEWLINE] + rest;
            lemma_without_newlines_append(line, nl_rest);
            lemma_without_newlines_append(seq![NEWLINE], rest);
            let one = seq![NEWLINE];
            assert(one[0] == NEWLINE);
            assert(one.drop_first() =~= Seq::<u8>::empty());
            assert(without_newlines(one.drop_first()) =~= Seq::<u8>::empty());
            assert(without_newlines(one) =~= Seq::<u8>::empty());
            assert(without_newlines(nl_rest) =~= without_newlines(rest));
            assert(t =~= line + nl_rest);
            assert(line + seq![NEWLINE] + rest =~= line + nl_rest);
        } else {
            assert(t =~= line);
        }
    }
}

} // verus!
