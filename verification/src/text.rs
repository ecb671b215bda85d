//! Plain-text target lists: one target per non-blank line.

use vstd::prelude::*;

verus! {

/// The Unicode `White_Space` property, the set of characters that
/// `char::is_whitespace` accepts.
pub open spec fn is_white_space(c: char) -> bool {
    let v = c as u32;
    ||| 0x09 <= v <= 0x0d
    ||| v == 0x20
    ||| v == 0x85
    ||| v == 0xa0
    ||| v == 0x1680
    ||| 0x2000 <= v <= 0x200a
    ||| v == 0x2028
    ||| v == 0x2029
    ||| v == 0x202f
    ||| v == 0x205f
    ||| v == 0x3000
}

/// `s` without its leading white space.
pub open spec fn trim_start(s: Seq<char>) -> Seq<char>
    decreases s.len(),
{
    if s.len() > 0 && is_white_space(s[0]) {
        trim_start(s.drop_first())
    } else {
        s
    }
}

/// `s` without its trailing white space.
pub open spec fn trim_end(s: Seq<char>) -> Seq<char>
    decreases s.len(),
{
    if s.len() > 0 && is_white_space(s.last()) {
        trim_end(s.drop_last())
    } else {
        s
    }
}

/// `s` without leading and trailing white space.
pub open spec fn trim(s: Seq<char>) -> Seq<char> {
    trim_end(trim_start(s))
}

/// The pieces of `s` between the `'\n'` characters, in order.
pub open spec fn split_lines(s: Seq<char>) -> Seq<Seq<char>>
    decreases s.len(),
{
    if s.len() == 0 {
        seq![Seq::<char>::empty()]
    } else {
        let prev = split_lines(s.drop_last());
        if s.last() == '\n' {
            prev.push(Seq::<char>::empty())
        } else {
            prev.update(prev.len() - 1, prev.last().push(s.last()))
        }
    }
}

/// The targets of a text list: each line trimmed, blank lines left out.
pub open spec fn text_rows(content: Seq<char>) -> Seq<Seq<char>> {
    split_lines(content).map_values(|l: Seq<char>| trim(l)).filter(|t: Seq<char>| t.len() > 0)
}

/// Whether `c` is white space in the sense of Unicode's `White_Space` property.
pub fn is_whitespace(c: char) -> (r: bool)
    ensures
        r == is_white_space(c),
{
    let v = c as u32;
    (0x09 <= v && v <= 0x0d) || v == 0x20 || v == 0x85 || v == 0xa0 || v == 0x1680 || (0x2000 <= v
        && v <= 0x200a) || v == 0x2028 || v == 0x2029 || v == 0x202f || v == 0x205f || v == 0x3000
}

proof fn lemma_split_lines_nonempty(s: Seq<char>)
    ensures
        split_lines(s).len() >= 1,
    decreases s.len(),
{
    if s.len() > 0 {
        lemma_split_lines_nonempty(s.drop_last());
    }
}

proof fn lemma_trim_start_skip(s: Seq<char>, a: int)
    requires
        0 <= a <= s.len(),
        forall|k: int| 0 <= k < a ==> is_white_space(#[trigger] s[k]),
    ensures
        trim_start(s) == trim_start(s.subrange(a, s.len() as int)),
    decreases a,
{
    if a > 0 {
        assert(s.drop_first().subrange(a - 1, s.drop_first().len() as int) =~= s.subrange(
            a,
            s.len() as int,
        ));
        lemma_trim_start_skip(s.drop_first(), a - 1);
    } else {
        assert(s.subrange(0, s.len() as int) =~= s);
    }
}

proof fn lemma_trim_end_skip(s: Seq<char>, b: int)
    requires
        0 <= b <= s.len(),
        forall|k: int| b <= k < s.len() ==> is_white_space(#[trigger] s[k]),
    ensures
        trim_end(s) == trim_end(s.subrange(0, b)),
    decreases s.len() - b,
{
    if b < s.len() {
        assert(s.drop_last().subrange(0, b) =~= s.subrange(0, b));
        lemma_trim_end_skip(s.drop_last(), b);
    } else {
        assert(s.subrange(0, b) =~= s);
    }
}

/// The trimmed form of `chars[start..end]`, as a pair of bounds.
fn trim_bounds(chars: &Vec<char>, start: usize, end: usize) -> (r: (usize, usize))
    requires
        start <= end <= chars.len(),
    ensures
        start <= r.0 <= r.1 <= end,
        chars@.subrange(r.0 as int, r.1 as int) == trim(chars@.subrange(start as int, end as int)),
{
    let ghost line = chars@.subrange(start as int, end as int);
    let mut a = start;
    while a < end && is_whitespace(chars[a])
        invariant
            start <= a <= end <= chars.len(),
            forall|k: int| start <= k < a ==> is_white_space(#[trigger] chars@[k]),
        decreases end - a,
    {
        a = a + 1;
    }
    let ghost rest = chars@.subrange(a as int, end as int);
    proof {
        assert forall|k: int| 0 <= k < a - start implies is_white_space(#[trigger] line[k]) by {
            assert(line[k] == chars@[start + k]);
        }
        lemma_trim_start_skip(line, a - start);
        assert(line.subrange(a - start, line.len() as int) =~= rest);
        assert(trim_start(rest) == rest);
    }
    let mut b = end;
    while b > a && is_whitespace(chars[b - 1])
        invariant
            start <= a <= b <= end <= chars.len(),
            forall|k: int| b <= k < end ==> is_white_space(#[trigger] chars@[k]),
        decreases b - a,
    {
        b = b - 1;
    }
    proof {
        assert forall|k: int| b - a <= k < rest.len() implies is_white_space(#[trigger] rest[k]) by {
            assert(rest[k] == chars@[a + k]);
        }
        lemma_trim_end_skip(rest, b - a);
        let kept = chars@.subrange(a as int, b as int);
        assert(rest.subrange(0, b - a) =~= kept);
        assert(trim_end(kept) == kept);
    }
    (a, b)
}

/// The characters of `s`, in order.
fn chars_of(s: &str) -> (r: Vec<char>)
    ensures
        r@ == s@,
{
    broadcast use vstd::string::group_string_axioms;

    let mut chars: Vec<char> = Vec::new();
    for c in it: s.chars()
        invariant
            chars@ == it.history(),
    {
        chars.push(c);
    }
    assert(chars@ =~= s@);
    chars
}

/// The string made of `chars[from..to]`, by `String`'s `FromIterator`. Each
/// line is built from the characters already collected, so reading a list
/// stays linear in its length; slicing the text by character positions
/// would walk it from its start for every line.
#[verifier::external_body]
fn string_from_chars(chars: &Vec<char>, from: usize, to: usize) -> (r: String)
    requires
        from <= to <= chars.len(),
    ensures
        r@ == chars@.subrange(from as int, to as int),
{
    chars[from..to].iter().collect()
}

/// The rows of a text list: one single-cell row for each line of `content`
/// that is not blank, holding that line without its surrounding white space.
pub open spec fn text_table(content: Seq<char>) -> Seq<Seq<Seq<char>>> {
    text_rows(content).map_values(|t: Seq<char>| seq![t])
}

proof fn lemma_rows_step(lines: Seq<Seq<char>>, line: Seq<char>)
    ensures
        lines.push(line).map_values(|l: Seq<char>| trim(l)).filter(|t: Seq<char>| t.len() > 0)
            == (if trim(line).len() > 0 {
            lines.map_values(|l: Seq<char>| trim(l)).filter(|t: Seq<char>| t.len() > 0).push(
                trim(line),
            )
        } else {
            lines.map_values(|l: Seq<char>| trim(l)).filter(|t: Seq<char>| t.len() > 0)
        }),
{
    let f = |l: Seq<char>| trim(l);
    let p = |t: Seq<char>| t.len() > 0;
    let m = lines.push(line).map_values(f);
    assert(m.drop_last() =~= lines.map_values(f));
    assert(m.last() == trim(line));
    reveal_with_fuel(Seq::<_>::filter, 1);
}

/// Reads a text list of targets: the header is the single column `IP`, and
/// each line of `content` that is not blank becomes a row of one cell,
/// holding the line without its leading and trailing white space.
pub fn read_text(content: &str) -> (r: (Vec<String>, Vec<Vec<String>>))
    ensures
        r.0.deep_view() == seq!["IP"@],
        r.1.deep_view() == text_table(content@),
{
    let chars = chars_of(content);
    let n = chars.len();
    let mut rows: Vec<Vec<String>> = Vec::new();
    let mut start: usize = 0;
    let mut i: usize = 0;
    proof {
        assert(chars@.take(0) =~= Seq::<char>::empty());
        assert(chars@.subrange(0, 0) =~= Seq::<char>::empty());
        reveal_with_fuel(Seq::<_>::filter, 1);
        assert(Seq::<Seq<char>>::empty().map_values(|l: Seq<char>| trim(l)).filter(
            |t: Seq<char>| t.len() > 0,
        ) =~= Seq::<Seq<char>>::empty());
        assert(split_lines(chars@.take(0)).drop_last() =~= Seq::<Seq<char>>::empty());
    }
    while i < n
        invariant
            n == chars.len(),
            chars@ == content@,
            start <= i <= n,
            split_lines(chars@.take(i as int)).len() >= 1,
            split_lines(chars@.take(i as int)).last() == chars@.subrange(start as int, i as int),
            rows.deep_view() == split_lines(chars@.take(i as int)).drop_last().map_values(
                |l: Seq<char>| trim(l),
            ).filter(|t: Seq<char>| t.len() > 0).map_values(|t: Seq<char>| seq![t]),
        decreases n - i,
    {
        let ghost prefix = chars@.take(i as int);
        let ghost next = chars@.take(i + 1);
        proof {
            assert(next.drop_last() =~= prefix);
            assert(next.last() == chars@[i as int]);
            lemma_split_lines_nonempty(prefix);
        }
        if chars[i] == '\n' {
            let (a, b) = trim_bounds(&chars, start, i);
            let ghost old_rows = rows.deep_view();
            let ghost line = chars@.subrange(start as int, i as int);
            proof {
                assert(split_lines(next) == split_lines(prefix).push(Seq::<char>::empty()));
                assert(split_lines(next).drop_last() =~= split_lines(prefix));
                assert(split_lines(prefix) =~= split_lines(prefix).drop_last().push(line));
                lemma_rows_step(split_lines(prefix).drop_last(), line);
            }
            if a < b {
                let cell = string_from_chars(&chars, a, b);
                let mut row: Vec<String> = Vec::new();
                row.push(cell);
                assert(row.deep_view() =~= seq![trim(line)]);
                rows.push(row);
                proof {
                    assert(rows.deep_view() =~= old_rows.push(seq![trim(line)]));
                }
            }
            start = i + 1;
            i = i + 1;
            proof {
                assert(chars@.subrange(start as int, i as int) =~= Seq::<char>::empty());
                assert(rows.deep_view() =~= split_lines(next).drop_last().map_values(
                    |l: Seq<char>| trim(l),
                ).filter(|t: Seq<char>| t.len() > 0).map_values(|t: Seq<char>| seq![t]));
            }
        } else {
            i = i + 1;
            proof {
                let prev = split_lines(prefix);
                assert(split_lines(next) == prev.update(
                    prev.len() - 1,
                    prev.last().push(chars@[i - 1]),
                ));
                assert(split_lines(next).drop_last() =~= prev.drop_last());
                assert(split_lines(next).last() =~= chars@.subrange(start as int, i as int));
            }
        }
    }
    let (a, b) = trim_bounds(&chars, start, n);
    let ghost old_rows = rows.deep_view();
    let ghost line = chars@.subrange(start as int, n as int);
    proof {
        assert(chars@.take(n as int) =~= content@);
        let lines = split_lines(content@);
        assert(lines =~= lines.drop_last().push(line));
        lemma_rows_step(lines.drop_last(), line);
    }
    if a < b {
        let cell = string_from_chars(&chars, a, b);
        let mut row: Vec<String> = Vec::new();
        row.push(cell);
        assert(row.deep_view() =~= seq![trim(line)]);
        rows.push(row);
        proof {
            assert(rows.deep_view() =~= old_rows.push(seq![trim(line)]));
        }
    }
    let mut headers: Vec<String> = Vec::new();
    headers.push(String::from_str("IP"));
    proof {
        assert(headers.deep_view() =~= seq!["IP"@]);
        assert(rows.deep_view() =~= text_table(content@));
    }
    (headers, rows)
}

/// Text without white space at either end.
pub open spec fn is_trimmed(t: Seq<char>) -> bool {
    t.len() == 0 || (!is_white_space(t[0]) && !is_white_space(t.last()))
}

proof fn lemma_trim_start_shape(s: Seq<char>)
    ensures
        exists|k: int| 0 <= k <= s.len() && trim_start(s) == s.subrange(k, s.len() as int),
        trim_start(s).len() == 0 || !is_white_space(trim_start(s)[0]),
    decreases s.len(),
{
    if s.len() > 0 && is_white_space(s[0]) {
        lemma_trim_start_shape(s.drop_first());
        let k = choose|k: int|
            0 <= k <= s.drop_first().len() && trim_start(s.drop_first()) == s.drop_first().subrange(
                k,
                s.drop_first().len() as int,
            );
        assert(s.drop_first().subrange(k, s.drop_first().len() as int) =~= s.subrange(
            k + 1,
            s.len() as int,
        ));
    } else {
        assert(s.subrange(0, s.len() as int) =~= s);
    }
}

proof fn lemma_trim_end_shape(s: Seq<char>)
    ensures
        exists|k: int| 0 <= k <= s.len() && trim_end(s) == s.subrange(0, k),
        trim_end(s).len() == 0 || !is_white_space(trim_end(s).last()),
    decreases s.len(),
{
    if s.len() > 0 && is_white_space(s.last()) {
        lemma_trim_end_shape(s.drop_last());
        let k = choose|k: int|
            0 <= k <= s.drop_last().len() && trim_end(s.drop_last()) == s.drop_last().subrange(
                0,
                k,
            );
        assert(s.drop_last().subrange(0, k) =~= s.subrange(0, k));
    } else {
        assert(s.subrange(0, s.len() as int) =~= s);
    }
}

proof fn lemma_trim_start_drops_white_space(s: Seq<char>)
    ensures
        exists|k: int|
            0 <= k <= s.len() && trim_start(s) == s.subrange(k, s.len() as int) && forall|i: int|
                0 <= i < k ==> is_white_space(#[trigger] s[i]),
    decreases s.len(),
{
    if s.len() > 0 && is_white_space(s[0]) {
        lemma_trim_start_drops_white_space(s.drop_first());
        let d = s.drop_first();
        let k = choose|k: int|
            0 <= k <= d.len() && trim_start(d) == d.subrange(k, d.len() as int) && forall|i: int|
                0 <= i < k ==> is_white_space(#[trigger] d[i]);
        assert(d.subrange(k, d.len() as int) =~= s.subrange(k + 1, s.len() as int));
        assert forall|i: int| 0 <= i < k + 1 implies is_white_space(#[trigger] s[i]) by {
            if i > 0 {
                assert(s[i] == d[i - 1]);
            }
        }
    } else {
        assert(s.subrange(0, s.len() as int) =~= s);
    }
}

proof fn lemma_trim_end_drops_white_space(s: Seq<char>)
    ensures
        exists|k: int|
            0 <= k <= s.len() && trim_end(s) == s.subrange(0, k) && forall|i: int|
                k <= i < s.len() ==> is_white_space(#[trigger] s[i]),
    decreases s.len(),
{
    if s.len() > 0 && is_white_space(s.last()) {
        lemma_trim_end_drops_white_space(s.drop_last());
        let d = s.drop_last();
        let k = choose|k: int|
            0 <= k <= d.len() && trim_end(d) == d.subrange(0, k) && forall|i: int|
                k <= i < d.len() ==> is_white_space(#[trigger] d[i]);
        assert(d.subrange(0, k) =~= s.subrange(0, k));
        assert forall|i: int| k <= i < s.len() implies is_white_space(#[trigger] s[i]) by {
            if i < s.len() - 1 {
                assert(s[i] == d[i]);
            }
        }
    } else {
        assert(s.subrange(0, s.len() as int) =~= s);
    }
}

/// Trimming removes only white space, and only at the ends: the trimmed
/// text is a contiguous part of the text with white space before and after.
pub proof fn lemma_trim_removes_only_white_space(s: Seq<char>)
    ensures
        exists|a: int, b: int|
            0 <= a <= b <= s.len() && trim(s) == s.subrange(a, b) && (forall|i: int|
                0 <= i < a ==> is_white_space(#[trigger] s[i])) && (forall|i: int|
                b <= i < s.len() ==> is_white_space(#[trigger] s[i])),
{
    lemma_trim_start_drops_white_space(s);
    let a = choose|k: int|
        0 <= k <= s.len() && trim_start(s) == s.subrange(k, s.len() as int) && forall|i: int|
            0 <= i < k ==> is_white_space(#[trigger] s[i]);
    let y = trim_start(s);
    lemma_trim_end_drops_white_space(y);
    let c = choose|k: int|
        0 <= k <= y.len() && trim_end(y) == y.subrange(0, k) && forall|i: int|
            k <= i < y.len() ==> is_white_space(#[trigger] y[i]);
    assert(trim(s) =~= s.subrange(a, a + c));
    assert forall|i: int| a + c <= i < s.len() implies is_white_space(#[trigger] s[i]) by {
        assert(s[i] == y[i - a]);
    }
}

/// Trimming leaves no white space at either end.
pub proof fn lemma_trim_is_trimmed(s: Seq<char>)
    ensures
        is_trimmed(trim(s)),
{
    let y = trim_start(s);
    lemma_trim_start_shape(s);
    lemma_trim_end_shape(y);
    let t = trim(s);
    if t.len() > 0 {
        let k = choose|k: int| 0 <= k <= y.len() && trim_end(y) == y.subrange(0, k);
        assert(t[0] == y[0]);
    }
}

/// Every target of a text list is a line of the list with the white space
/// at its ends removed: it is not empty and has no white space at either
/// end.
proof fn lemma_text_rows_trimmed(content: Seq<char>)
    ensures
        forall|i: int|
            0 <= i < text_rows(content).len() ==> (#[trigger] text_rows(content)[i]).len() > 0
                && is_trimmed(text_rows(content)[i]),
{
    let lines = split_lines(content);
    let trimmed = lines.map_values(|l: Seq<char>| trim(l));
    let p = |t: Seq<char>| t.len() > 0;
    assert forall|i: int| 0 <= i < text_rows(content).len() implies (#[trigger] text_rows(
        content,
    )[i]).len() > 0 && is_trimmed(text_rows(content)[i]) by {
        let t = text_rows(content)[i];
        trimmed.lemma_filter_pred(p, i);
        assert(trimmed.filter(p)[i] == t);
        assert(trimmed.filter(p).contains(t));
        trimmed.lemma_filter_contains_rev(p, t);
        let k = choose|k: int| 0 <= k < trimmed.len() && trimmed[k] == t;
        lemma_trim_is_trimmed(lines[k]);
    }
}

/// Splitting at a `'\n'` between two texts gives the lines of the first
/// followed by the lines of the second.
pub proof fn lemma_split_lines_concat(a: Seq<char>, b: Seq<char>)
    ensures
        split_lines(a + seq!['\n'] + b) == split_lines(a) + split_lines(b),
    decreases b.len(),
{
    let s = a + seq!['\n'] + b;
    if b.len() == 0 {
        assert(s.drop_last() =~= a);
        assert(split_lines(b) =~= seq![Seq::<char>::empty()]);
        assert(split_lines(s) =~= split_lines(a) + split_lines(b));
    } else {
        lemma_split_lines_concat(a, b.drop_last());
        assert(s.drop_last() =~= a + seq!['\n'] + b.drop_last());
        let x = split_lines(a);
        let y = split_lines(b.drop_last());
        lemma_split_lines_nonempty(b.drop_last());
        if b.last() == '\n' {
            assert(split_lines(s) =~= x + split_lines(b));
        } else {
            assert((x + y).update((x + y).len() - 1, (x + y).last().push(b.last())) =~= x + y.update(
                y.len() - 1,
                y.last().push(b.last()),
            ));
            assert(split_lines(s) =~= x + split_lines(b));
        }
    }
}

/// The lines of a text list are read one by one: reading two lists joined
/// by a line break gives the targets of the first followed by those of the
/// second.
pub proof fn lemma_text_rows_concat(a: Seq<char>, b: Seq<char>)
    ensures
        text_rows(a + seq!['\n'] + b) == text_rows(a) + text_rows(b),
{
    broadcast use Seq::filter_distributes_over_add;

    lemma_split_lines_concat(a, b);
    let f = |l: Seq<char>| trim(l);
    let x = split_lines(a);
    let y = split_lines(b);
    assert((x + y).map_values(f) =~= x.map_values(f) + y.map_values(f));
}

/// Targets written one per line: the targets joined by `'\n'`.
pub open spec fn join_lines(ts: Seq<Seq<char>>) -> Seq<char>
    decreases ts.len(),
{
    if ts.len() == 0 {
        Seq::empty()
    } else if ts.len() == 1 {
        ts[0]
    } else {
        join_lines(ts.drop_last()) + seq!['\n'] + ts.last()
    }
}

proof fn lemma_split_lines_no_newline(s: Seq<char>)
    ensures
        forall|i: int| 0 <= i < split_lines(s).len() ==> !(#[trigger] split_lines(s)[i]).contains('\n'),
    decreases s.len(),
{
    if s.len() > 0 {
        let prev = split_lines(s.drop_last());
        lemma_split_lines_no_newline(s.drop_last());
        lemma_split_lines_nonempty(s.drop_last());
        if s.last() != '\n' {
            let l = prev.last().push(s.last());
            assert forall|j: int| 0 <= j < l.len() implies l[j] != '\n' by {
                if j < prev.last().len() {
                    assert(prev.last()[j] == l[j]);
                    assert(prev[prev.len() - 1] == prev.last());
                }
            }
        }
        assert forall|i: int| 0 <= i < split_lines(s).len() implies !(#[trigger] split_lines(s)[i]).contains('\n') by {
            if s.last() == '\n' {
                if i < prev.len() {
                    assert(split_lines(s)[i] == prev[i]);
                } else {
                    assert(split_lines(s)[i] =~= Seq::<char>::empty());
                }
            } else {
                if i < prev.len() - 1 {
                    assert(split_lines(s)[i] == prev[i]);
                }
            }
        }
    }
}

proof fn lemma_trim_no_newline(s: Seq<char>)
    requires
        !s.contains('\n'),
    ensures
        !trim(s).contains('\n'),
{
    lemma_trim_start_shape(s);
    let y = trim_start(s);
    let a = choose|k: int| 0 <= k <= s.len() && trim_start(s) == s.subrange(k, s.len() as int);
    lemma_trim_end_shape(y);
    let b = choose|k: int| 0 <= k <= y.len() && trim_end(y) == y.subrange(0, k);
    assert forall|j: int| 0 <= j < trim(s).len() implies trim(s)[j] != '\n' by {
        assert(trim(s)[j] == s[a + j]);
    }
}

/// Every target of a text list is a line of the list with the white space
/// at its ends removed: it is not empty, has no white space at either end
/// and holds no line break.
pub proof fn lemma_text_rows_single_lines(content: Seq<char>)
    ensures
        forall|i: int|
            0 <= i < text_rows(content).len() ==> (#[trigger] text_rows(content)[i]).len() > 0
                && is_trimmed(text_rows(content)[i]) && !text_rows(content)[i].contains('\n'),
{
    lemma_text_rows_trimmed(content);
    let lines = split_lines(content);
    let trimmed = lines.map_values(|l: Seq<char>| trim(l));
    let p = |t: Seq<char>| t.len() > 0;
    lemma_split_lines_no_newline(content);
    assert forall|i: int| 0 <= i < text_rows(content).len() implies !(#[trigger] text_rows(
        content,
    )[i]).contains('\n') by {
        let t = text_rows(content)[i];
        assert(trimmed.filter(p)[i] == t);
        assert(trimmed.filter(p).contains(t));
        trimmed.lemma_filter_contains_rev(p, t);
        let k = choose|k: int| 0 <= k < trimmed.len() && trimmed[k] == t;
        assert(!lines[k].contains('\n'));
        lemma_trim_no_newline(lines[k]);
    }
}

proof fn lemma_split_single_line(t: Seq<char>)
    requires
        !t.contains('\n'),
    ensures
        split_lines(t) == seq![t],
    decreases t.len(),
{
    if t.len() > 0 {
        assert(!t.drop_last().contains('\n')) by {
            assert forall|j: int| 0 <= j < t.drop_last().len() implies t.drop_last()[j] != '\n' by {
                assert(t.drop_last()[j] == t[j]);
            }
        }
        lemma_split_single_line(t.drop_last());
        assert(t.drop_last().push(t.last()) =~= t);
        assert(split_lines(t) =~= seq![t]);
    } else {
        assert(t =~= Seq::<char>::empty());
    }
}

proof fn lemma_text_rows_single(t: Seq<char>)
    requires
        t.len() > 0,
        is_trimmed(t),
        !t.contains('\n'),
    ensures
        text_rows(t) == seq![t],
{
    lemma_split_single_line(t);
    assert(trim_start(t) == t);
    assert(trim_end(t) == t);
    let m = seq![t].map_values(|l: Seq<char>| trim(l));
    assert(m =~= seq![t]);
    reveal_with_fuel(Seq::<_>::filter, 2);
    assert(m.drop_last().filter(|x: Seq<char>| x.len() > 0) =~= Seq::<Seq<char>>::empty());
    assert(m.filter(|x: Seq<char>| x.len() > 0) =~= seq![t]);
}

/// Each row of a text list is the single cell holding the matching target.
pub proof fn lemma_text_table_rows(content: Seq<char>)
    ensures
        text_table(content).len() == text_rows(content).len(),
        forall|i: int|
            0 <= i < text_rows(content).len() ==> #[trigger] text_table(content)[i] == seq![
                text_rows(content)[i],
            ],
{
}

/// An empty list has no targets.
pub proof fn lemma_text_rows_empty()
    ensures
        text_rows(Seq::<char>::empty()) == Seq::<Seq<char>>::empty(),
{
    let e = Seq::<char>::empty();
    assert(trim_start(e) == e);
    assert(trim_end(e) == e);
    let m = split_lines(e).map_values(|l: Seq<char>| trim(l));
    assert(m =~= seq![e]);
    reveal_with_fuel(Seq::<_>::filter, 2);
    assert(m.drop_last().filter(|x: Seq<char>| x.len() > 0) =~= Seq::<Seq<char>>::empty());
    assert(m.filter(|x: Seq<char>| x.len() > 0) =~= Seq::<Seq<char>>::empty());
}

/// A single line is one target, trimmed, unless it is blank: reading a
/// line without a line break gives that line without its surrounding white
/// space, or nothing when only white space is left.
pub proof fn lemma_text_rows_line(l: Seq<char>)
    requires
        !l.contains('\n'),
    ensures
        text_rows(l) == (if trim(l).len() > 0 {
            seq![trim(l)]
        } else {
            Seq::<Seq<char>>::empty()
        }),
{
    lemma_split_single_line(l);
    let m = seq![l].map_values(|x: Seq<char>| trim(x));
    assert(m =~= seq![trim(l)]);
    reveal_with_fuel(Seq::<_>::filter, 2);
    assert(m.drop_last().filter(|x: Seq<char>| x.len() > 0) =~= Seq::<Seq<char>>::empty());
    if trim(l).len() > 0 {
        assert(m.filter(|x: Seq<char>| x.len() > 0) =~= seq![trim(l)]);
    } else {
        assert(m.filter(|x: Seq<char>| x.len() > 0) =~= Seq::<Seq<char>>::empty());
    }
}

/// Targets that are non-empty, trimmed single lines come back unchanged
/// when written one per line and read again.
pub proof fn lemma_rejoin(ts: Seq<Seq<char>>)
    requires
        forall|i: int|
            0 <= i < ts.len() ==> (#[trigger] ts[i]).len() > 0 && is_trimmed(ts[i]) && !ts[i].contains(
                '\n',
            ),
    ensures
        text_rows(join_lines(ts)) == ts,
    decreases ts.len(),
{
    if ts.len() == 0 {
        lemma_text_rows_empty();
        assert(text_rows(join_lines(ts)) =~= ts);
    } else if ts.len() == 1 {
        lemma_text_rows_single(ts[0]);
        assert(text_rows(join_lines(ts)) =~= ts);
    } else {
        let init = ts.drop_last();
        assert forall|i: int| 0 <= i < init.len() implies (#[trigger] init[i]).len() > 0 && is_trimmed(
            init[i],
        ) && !init[i].contains('\n') by {
            assert(init[i] == ts[i]);
        }
        lemma_rejoin(init);
        lemma_text_rows_concat(join_lines(init), ts.last());
        assert(ts[ts.len() - 1] == ts.last());
        lemma_text_rows_single(ts.last());
        assert(text_rows(join_lines(ts)) =~= ts);
    }
}

/// Reading a text list, writing its targets back one per line and reading
/// that again gives the same targets.
pub proof fn lemma_text_reread(content: Seq<char>)
    ensures
        text_rows(join_lines(text_rows(content))) == text_rows(content),
        text_table(join_lines(text_rows(content))) == text_table(content),
{
    lemma_text_rows_single_lines(content);
    lemma_rejoin(text_rows(content));
}

} // verus!
