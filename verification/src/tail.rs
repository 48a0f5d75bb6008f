//! Keeping only the last lines of a command's output.

use vstd::prelude::*;
use crate::text::{chars_of, string_from_chars};

verus! {

/// Position of the first `'\n'` in `s`, or `s.len()` when there is none.
pub open spec fn first_newline(s: Seq<char>) -> nat
    decreases s.len(),
{
    if s.len() == 0 {
        0
    } else if s[0] == '\n' {
        0
    } else {
        1 + first_newline(s.drop_first())
    }
}

/// A line that ended in `"\r\n"` loses the carriage return.
pub open spec fn strip_cr(line: Seq<char>) -> Seq<char> {
    if line.len() > 0 && line.last() == '\r' {
        line.drop_last()
    } else {
        line
    }
}

/// The lines of `s` as `str::lines` yields them: split at each `'\n'`, a
/// `'\r'` just before a `'\n'` removed, and no empty line after a final `'\n'`.
pub open spec fn text_lines(s: Seq<char>) -> Seq<Seq<char>>
    decreases s.len(),
{
    if s.len() == 0 {
        seq![]
    } else {
        let k = first_newline(s);
        if k < s.len() {
            seq![strip_cr(s.take(k as int))] + text_lines(s.skip((k + 1) as int))
        } else {
            seq![s]
        }
    }
}

/// The lines joined with `'\n'` between each two of them.
pub open spec fn join_lines(lines: Seq<Seq<char>>) -> Seq<char>
    decreases lines.len(),
{
    if lines.len() == 0 {
        seq![]
    } else if lines.len() == 1 {
        lines[0]
    } else {
        join_lines(lines.drop_last()) + seq!['\n'] + lines.last()
    }
}

/// What `tail_lines(text, n)` returns: the text itself when it has at most
/// `n` lines, else its last `n` lines joined with `'\n'`.
pub open spec fn spec_tail_lines(text: Seq<char>, n: nat) -> Seq<char> {
    let lines = text_lines(text);
    if lines.len() <= n {
        text
    } else {
        join_lines(lines.skip(lines.len() - n))
    }
}

proof fn lemma_first_newline(t: Seq<char>, k: int)
    requires
        0 <= k <= t.len(),
        k < t.len() ==> t[k] == '\n',
        forall|j: int| 0 <= j < k ==> t[j] != '\n',
    ensures
        first_newline(t) == k,
    decreases k,
{
    if k > 0 {
        let u = t.drop_first();
        assert forall|j: int| 0 <= j < k - 1 implies u[j] != '\n' by {
            assert(u[j] == t[j + 1]);
        }
        lemma_first_newline(u, k - 1);
    }
}

/// Truncate text to the last `n` lines.
pub fn tail_lines(text: &str, n: usize) -> (r: String)
    ensures
        r@ == spec_tail_lines(text@, n as nat),
{
    let cs = chars_of(text);
    let len = cs.len();
    let mut spans: Vec<(usize, usize)> = Vec::new();
    let ghost mut done: Seq<Seq<char>> = seq![];
    let mut start: usize = 0;
    let mut i: usize = 0;
    assert(cs@.skip(0) =~= cs@);
    while i < len
        invariant
            len == cs@.len(),
            cs@ == text@,
            start <= i <= len,
            forall|j: int| start <= j < i ==> cs@[j] != '\n',
            done.len() == spans@.len(),
            forall|j: int| 0 <= j < spans@.len() ==> (#[trigger] spans@[j]).0 <= spans@[j].1 <= len,
            forall|j: int|
                0 <= j < spans@.len() ==> #[trigger] done[j] == cs@.subrange(
                    spans@[j].0 as int,
                    spans@[j].1 as int,
                ),
            text_lines(text@) == done + text_lines(cs@.skip(start as int)),
        decreases len - i,
    {
        if cs[i] == '\n' {
            let end: usize = if i > start && cs[i - 1] == '\r' { i - 1 } else { i };
            proof {
                let t = cs@.skip(start as int);
                let k = i - start;
                assert forall|j: int| 0 <= j < k implies t[j] != '\n' by {
                    assert(t[j] == cs@[start + j]);
                }
                lemma_first_newline(t, k as int);
                assert(t.take(k as int) =~= cs@.subrange(start as int, i as int));
                assert(strip_cr(t.take(k as int)) =~= cs@.subrange(start as int, end as int));
                assert(t.skip(k + 1) =~= cs@.skip(i + 1));
                assert(text_lines(t) == seq![cs@.subrange(start as int, end as int)] + text_lines(
                    cs@.skip(i + 1),
                ));
                done = done.push(cs@.subrange(start as int, end as int));
            }
            spans.push((start, end));
            start = i + 1;
            proof {
                assert(text_lines(text@) =~= done + text_lines(cs@.skip(start as int)));
            }
        }
        i = i + 1;
    }
    if start < len {
        proof {
            let t = cs@.skip(start as int);
            assert forall|j: int| 0 <= j < t.len() implies t[j] != '\n' by {
                assert(t[j] == cs@[start + j]);
            }
            lemma_first_newline(t, t.len() as int);
            assert(t =~= cs@.subrange(start as int, len as int));
            done = done.push(cs@.subrange(start as int, len as int));
        }
        spans.push((start, len));
    } else {
        assert(cs@.skip(start as int) =~= Seq::<char>::empty());
    }
    assert(text_lines(text@) =~= done);
    let count = spans.len();
    if count <= n {
        return String::from_str(text);
    }
    let first = count - n;
    let mut out: Vec<char> = Vec::new();
    let mut j: usize = first;
    while j < count
        invariant
            first <= j <= count,
            count == spans@.len(),
            count == done.len(),
            len == cs@.len(),
            forall|m: int| 0 <= m < spans@.len() ==> (#[trigger] spans@[m]).0 <= spans@[m].1 <= len,
            forall|m: int|
                0 <= m < spans@.len() ==> #[trigger] done[m] == cs@.subrange(
                    spans@[m].0 as int,
                    spans@[m].1 as int,
                ),
            out@ == join_lines(done.subrange(first as int, j as int)),
        decreases count - j,
    {
        let ghost before = out@;
        if j > first {
            out.push('\n');
        }
        let (s, e) = spans[j];
        let mut k: usize = s;
        let ghost mid = out@;
        while k < e
            invariant
                s <= k <= e <= len,
                len == cs@.len(),
                out@ == mid + cs@.subrange(s as int, k as int),
            decreases e - k,
        {
            out.push(cs[k]);
            assert(cs@.subrange(s as int, k + 1) =~= cs@.subrange(s as int, k as int).push(cs@[k as int]));
            k = k + 1;
        }
        proof {
            let part = done.subrange(first as int, j + 1);
            assert(part.drop_last() =~= done.subrange(first as int, j as int));
            assert(part.last() == done[j as int]);
            if j == first {
                assert(part.len() == 1);
                assert(out@ =~= done[j as int]);
            } else {
                assert(out@ =~= before + seq!['\n'] + done[j as int]);
            }
        }
        j = j + 1;
    }
    assert(done.subrange(first as int, count as int) =~= done.skip(first as int));
    string_from_chars(out.as_slice())
}

proof fn lemma_first_newline_bounds(s: Seq<char>)
    ensures
        first_newline(s) <= s.len(),
        forall|j: int| 0 <= j < first_newline(s) ==> s[j] != '\n',
        first_newline(s) < s.len() ==> s[first_newline(s) as int] == '\n',
    decreases s.len(),
{
    if s.len() > 0 && s[0] != '\n' {
        let u = s.drop_first();
        lemma_first_newline_bounds(u);
        assert forall|j: int| 0 <= j < first_newline(s) implies s[j] != '\n' by {
            if j > 0 {
                assert(s[j] == u[j - 1]);
            }
        }
    }
}

/// No line holds a `'\n'`.
proof fn lemma_lines_chars(s: Seq<char>)
    ensures
        forall|i: int| 0 <= i < text_lines(s).len() ==> !(#[trigger] text_lines(s)[i]).contains('\n'),
    decreases s.len(),
{
    if s.len() > 0 {
        let k = first_newline(s);
        lemma_first_newline_bounds(s);
        if k < s.len() {
            let rest = s.skip((k + 1) as int);
            lemma_lines_chars(rest);
            let head = strip_cr(s.take(k as int));
            assert(!head.contains('\n')) by {
                if head.contains('\n') {
                    let j = choose|j: int| 0 <= j < head.len() && head[j] == '\n';
                    assert(s[j] == '\n');
                }
            }
            let ls = text_lines(s);
            assert(ls == seq![head] + text_lines(rest));
            assert forall|i: int| 0 <= i < ls.len() implies !(#[trigger] ls[i]).contains('\n') by {
                if i > 0 {
                    assert(ls[i] == text_lines(rest)[i - 1]);
                }
            }
        } else {
            assert(!s.contains('\n')) by {
                if s.contains('\n') {
                    let j = choose|j: int| 0 <= j < s.len() && s[j] == '\n';
                }
            }
        }
    }
}

/// A line that ends in a carriage return.
pub open spec fn ends_with_cr(line: Seq<char>) -> bool {
    line.len() > 0 && line.last() == '\r'
}

/// Joining from the front: the first line, a `'\n'`, then the rest joined.
proof fn lemma_join_front(lines: Seq<Seq<char>>)
    requires
        lines.len() >= 2,
    ensures
        join_lines(lines) == lines[0] + seq!['\n'] + join_lines(lines.drop_first()),
    decreases lines.len(),
{
    if lines.len() == 2 {
        assert(lines.drop_last().len() == 1);
        assert(join_lines(lines.drop_last()) == lines[0]);
        assert(lines.drop_first().len() == 1);
        assert(join_lines(lines.drop_first()) == lines[1]);
        assert(join_lines(lines) =~= lines[0] + seq!['\n'] + lines[1]);
    } else {
        let init = lines.drop_last();
        lemma_join_front(init);
        assert(init.drop_first() =~= lines.drop_first().drop_last());
        assert(lines.drop_first().last() == lines.last());
        let tail = lines.drop_first();
        assert(join_lines(tail) == join_lines(tail.drop_last()) + seq!['\n'] + tail.last());
        assert(join_lines(lines) == join_lines(init) + seq!['\n'] + lines.last());
        assert(join_lines(lines) =~= lines[0] + seq!['\n'] + join_lines(lines.drop_first()));
    }
}

/// Splitting a text whose first line is `a`.
proof fn lemma_lines_after_first(a: Seq<char>, b: Seq<char>)
    requires
        !a.contains('\n'),
    ensures
        text_lines(a + seq!['\n'] + b) == seq![strip_cr(a)] + text_lines(b),
{
    let s = a + seq!['\n'] + b;
    assert forall|j: int| 0 <= j < a.len() implies s[j] != '\n' by {
        assert(s[j] == a[j]);
        if a[j] == '\n' {
            assert(a.contains(a[j]));
        }
    }
    lemma_first_newline(s, a.len() as int);
    assert(s.take(a.len() as int) =~= a);
    assert(s.skip((a.len() + 1) as int) =~= b);
}

/// Lines without `'\n'`, none but the last ending in `'\r'` and the last
/// not empty, come back unchanged from splitting their join.
proof fn lemma_lines_of_join(lines: Seq<Seq<char>>)
    requires
        forall|i: int| 0 <= i < lines.len() ==> !(#[trigger] lines[i]).contains('\n'),
        forall|i: int| 0 <= i < lines.len() - 1 ==> !ends_with_cr(#[trigger] lines[i]),
        lines.len() > 0 ==> lines.last().len() > 0,
    ensures
        text_lines(join_lines(lines)) == lines,
    decreases lines.len(),
{
    if lines.len() == 1 {
        let a = lines[0];
        assert forall|j: int| 0 <= j < a.len() implies a[j] != '\n' by {
            if a[j] == '\n' {
                assert(a.contains(a[j]));
            }
        }
        lemma_first_newline(a, a.len() as int);
        assert(text_lines(a) =~= seq![a]);
    } else if lines.len() >= 2 {
        let rest = lines.drop_first();
        assert forall|i: int| 0 <= i < rest.len() implies !(#[trigger] rest[i]).contains('\n') by {
            assert(rest[i] == lines[i + 1]);
        }
        assert forall|i: int| 0 <= i < rest.len() - 1 implies !ends_with_cr(#[trigger] rest[i]) by {
            assert(rest[i] == lines[i + 1]);
        }
        lemma_lines_of_join(rest);
        lemma_join_front(lines);
        lemma_lines_after_first(lines[0], join_lines(rest));
        let a = lines[0];
        assert(!ends_with_cr(a));
        assert(strip_cr(a) == a);
        assert(seq![a] + rest =~= lines);
    }
}

/// Splitting the result of `tail_lines` gives back the last `n` lines of the
/// text (all of them when it has fewer), whenever the last line is not empty
/// and no other line ends in a carriage return (such a line would have come
/// from `"\r\r\n"` and loses its `'\r'` when split again).
pub proof fn lemma_tail_lines_keeps_last_lines(text: Seq<char>, n: nat)
    requires
        text_lines(text).len() > 0 ==> text_lines(text).last().len() > 0,
        forall|i: int| 0 <= i < text_lines(text).len() - 1 ==> !ends_with_cr(#[trigger] text_lines(text)[i]),
    ensures
        text_lines(text).len() <= n ==> text_lines(spec_tail_lines(text, n)) == text_lines(text),
        text_lines(text).len() > n ==> text_lines(spec_tail_lines(text, n)) == text_lines(text).skip(
            text_lines(text).len() - n,
        ),
{
    let ls = text_lines(text);
    if ls.len() > n {
        let kept = ls.skip(ls.len() - n);
        lemma_lines_chars(text);
        assert forall|i: int| 0 <= i < kept.len() implies !(#[trigger] kept[i]).contains('\n') by {
            assert(kept[i] == ls[ls.len() - n + i]);
        }
        assert forall|i: int| 0 <= i < kept.len() - 1 implies !ends_with_cr(#[trigger] kept[i]) by {
            assert(kept[i] == ls[ls.len() - n + i]);
        }
        if kept.len() > 0 {
            assert(kept.last() == ls.last());
        }
        lemma_lines_of_join(kept);
    }
}

/// The number of `'\n'` in `s`.
pub open spec fn newline_count(s: Seq<char>) -> nat
    decreases s.len(),
{
    if s.len() == 0 {
        0
    } else {
        (if s[0] == '\n' { 1nat } else { 0nat }) + newline_count(s.drop_first())
    }
}

proof fn lemma_newline_count_add(a: Seq<char>, b: Seq<char>)
    ensures
        newline_count(a + b) == newline_count(a) + newline_count(b),
    decreases a.len(),
{
    if a.len() > 0 {
        lemma_newline_count_add(a.drop_first(), b);
        assert((a + b).drop_first() =~= a.drop_first() + b);
    } else {
        assert(a + b =~= b);
    }
}

proof fn lemma_newline_count_none(a: Seq<char>)
    requires
        !a.contains('\n'),
    ensures
        newline_count(a) == 0,
    decreases a.len(),
{
    if a.len() > 0 {
        assert(a[0] != '\n') by {
            if a[0] == '\n' {
                assert(a.contains(a[0]));
            }
        }
        assert(!a.drop_first().contains('\n')) by {
            if a.drop_first().contains('\n') {
                let j = choose|j: int| 0 <= j < a.drop_first().len() && a.drop_first()[j] == '\n';
                assert(a.contains(a[j + 1]));
            }
        }
        lemma_newline_count_none(a.drop_first());
    }
}

proof fn lemma_newline_count_single()
    ensures
        newline_count(seq!['\n']) == 1,
{
    let one = seq!['\n'];
    let empty = one.drop_first();
    assert(empty.len() == 0);
    assert(newline_count(empty) == 0);
    assert(one[0] == '\n');
}

/// A text splits into at most one line more than it has `'\n'`, and an
/// empty text into none.
proof fn lemma_line_count_bound(s: Seq<char>)
    ensures
        text_lines(s).len() <= newline_count(s) + (if s.len() > 0 { 1nat } else { 0nat }),
    decreases s.len(),
{
    if s.len() > 0 {
        let k = first_newline(s);
        lemma_first_newline_bounds(s);
        if k < s.len() {
            let rest = s.skip((k + 1) as int);
            lemma_line_count_bound(rest);
            let head = s.take(k as int);
            assert(!head.contains('\n')) by {
                if head.contains('\n') {
                    let j = choose|j: int| 0 <= j < head.len() && head[j] == '\n';
                    assert(s[j] == '\n');
                }
            }
            lemma_newline_count_none(head);
            assert(s =~= head + (seq!['\n'] + rest));
            lemma_newline_count_add(head, seq!['\n'] + rest);
            lemma_newline_count_add(seq!['\n'], rest);
            lemma_newline_count_single();
        }
    }
}

/// Lines without `'\n'` joined hold one `'\n'` fewer than there are lines.
proof fn lemma_join_newline_count(lines: Seq<Seq<char>>)
    requires
        lines.len() > 0,
        forall|i: int| 0 <= i < lines.len() ==> !(#[trigger] lines[i]).contains('\n'),
    ensures
        newline_count(join_lines(lines)) == lines.len() - 1,
    decreases lines.len(),
{
    if lines.len() == 1 {
        lemma_newline_count_none(lines[0]);
    } else {
        let init = lines.drop_last();
        assert forall|i: int| 0 <= i < init.len() implies !(#[trigger] init[i]).contains('\n') by {
            assert(init[i] == lines[i]);
        }
        lemma_join_newline_count(init);
        lemma_newline_count_none(lines.last());
        lemma_newline_count_add(join_lines(init) + seq!['\n'], lines.last());
        lemma_newline_count_add(join_lines(init), seq!['\n']);
        lemma_newline_count_single();
    }
}

/// `tail_lines(text, n)` never yields more than `n` lines.
pub proof fn lemma_tail_lines_at_most_n(text: Seq<char>, n: nat)
    ensures
        text_lines(spec_tail_lines(text, n)).len() <= n,
{
    let ls = text_lines(text);
    if ls.len() > n {
        let kept = ls.skip(ls.len() - n);
        if n == 0 {
            assert(kept.len() == 0);
            assert(join_lines(kept).len() == 0);
        } else {
            lemma_lines_chars(text);
            assert forall|i: int| 0 <= i < kept.len() implies !(#[trigger] kept[i]).contains('\n') by {
                assert(kept[i] == ls[ls.len() - n + i]);
            }
            lemma_join_newline_count(kept);
            lemma_line_count_bound(join_lines(kept));
        }
    }
}

/// The number of lines is the number of `'\n'`, plus one when the text does
/// not end in `'\n'` (and is not empty).
proof fn lemma_line_count_exact(s: Seq<char>)
    ensures
        text_lines(s).len() == newline_count(s) + (if s.len() > 0 && s.last() != '\n' {
            1nat
        } else {
            0nat
        }),
    decreases s.len(),
{
    if s.len() > 0 {
        let k = first_newline(s);
        lemma_first_newline_bounds(s);
        let head = s.take(k as int);
        assert(!head.contains('\n')) by {
            if head.contains('\n') {
                let j = choose|j: int| 0 <= j < head.len() && head[j] == '\n';
                assert(s[j] == '\n');
            }
        }
        lemma_newline_count_none(head);
        if k < s.len() {
            let rest = s.skip((k + 1) as int);
            lemma_line_count_exact(rest);
            assert(s =~= head + (seq!['\n'] + rest));
            lemma_newline_count_add(head, seq!['\n'] + rest);
            lemma_newline_count_add(seq!['\n'], rest);
            lemma_newline_count_single();
            if rest.len() > 0 {
                assert(s.last() == rest.last());
            } else {
                assert(s.last() == '\n');
            }
        } else {
            assert(head =~= s);
            assert(s.last() != '\n');
        }
    }
}

/// Joined lines end in the last character of the last line.
proof fn lemma_join_last(lines: Seq<Seq<char>>)
    requires
        lines.len() > 0,
        lines.last().len() > 0,
    ensures
        join_lines(lines).len() > 0,
        join_lines(lines).last() == lines.last().last(),
{
    if lines.len() >= 2 {
        let j = join_lines(lines);
        assert(j == join_lines(lines.drop_last()) + seq!['\n'] + lines.last());
    }
}

/// When the last line of the text is not empty, `tail_lines(text, n)` has
/// exactly the smaller of `n` and the text's number of lines.
pub proof fn lemma_tail_lines_line_count(text: Seq<char>, n: nat)
    requires
        text_lines(text).len() > 0 ==> text_lines(text).last().len() > 0,
    ensures
        text_lines(spec_tail_lines(text, n)).len() == if text_lines(text).len() <= n {
            text_lines(text).len()
        } else {
            n
        },
{
    let ls = text_lines(text);
    if ls.len() > n {
        let kept = ls.skip(ls.len() - n);
        if n == 0 {
            assert(kept.len() == 0);
            assert(join_lines(kept).len() == 0);
        } else {
            lemma_lines_chars(text);
            assert forall|i: int| 0 <= i < kept.len() implies !(#[trigger] kept[i]).contains('\n') by {
                assert(kept[i] == ls[ls.len() - n + i]);
            }
            assert(kept.last() == ls.last());
            lemma_join_newline_count(kept);
            lemma_join_last(kept);
            let l = kept.last();
            assert(l.last() != '\n') by {
                assert(l.contains(l.last()));
            }
            lemma_line_count_exact(join_lines(kept));
        }
    }
}

} // verus!
