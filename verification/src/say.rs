use crate::text::{char_repeat, push_repeat, strings_view};
use vstd::prelude::*;
use vstd::string::{StrSliceExecFns, StringExecFns};

verus! {

/// Index of the first line break at or after `i`, or `s.len()`.
pub open spec fn first_nl_from(s: Seq<char>, i: int) -> int
    decreases s.len() - i,
{
    if i < 0 || i >= s.len() {
        s.len() as int
    } else if s[i] == '\n' {
        i
    } else {
        first_nl_from(s, i + 1)
    }
}

proof fn lemma_first_nl_props(s: Seq<char>, i: int)
    requires
        0 <= i <= s.len(),
    ensures
        i <= first_nl_from(s, i) <= s.len(),
        first_nl_from(s, i) < s.len() ==> s[first_nl_from(s, i)] == '\n',
        forall|j: int| i <= j < first_nl_from(s, i) ==> s[j] != '\n',
    decreases s.len() - i,
{
    if i < s.len() && s[i] != '\n' {
        lemma_first_nl_props(s, i + 1);
    }
}

proof fn lemma_first_nl_at(s: Seq<char>, i: int, k: int)
    requires
        0 <= i <= k <= s.len(),
        k < s.len() ==> s[k] == '\n',
        k == s.len() || s[k] == '\n',
        forall|j: int| i <= j < k ==> s[j] != '\n',
    ensures
        k < s.len() ==> first_nl_from(s, i) == k,
        k == s.len() ==> first_nl_from(s, i) == s.len(),
    decreases k - i,
{
    if i < k {
        lemma_first_nl_at(s, i + 1, k);
    }
}

/// A line segment with one trailing carriage return removed.
pub open spec fn strip_cr(s: Seq<char>) -> Seq<char> {
    if s.len() > 0 && s.last() == '\r' {
        s.drop_last()
    } else {
        s
    }
}

/// The lines of a text: split at each line break, a carriage return before
/// a line break dropped, and no final empty segment after a trailing line
/// break.
pub open spec fn split_lines(s: Seq<char>) -> Seq<Seq<char>>
    decreases s.len(),
    via split_lines_decreases
{
    if s.len() == 0 {
        Seq::empty()
    } else {
        let i = first_nl_from(s, 0);
        if i == s.len() {
            seq![s]
        } else {
            seq![strip_cr(s.take(i))] + split_lines(s.skip(i + 1))
        }
    }
}

#[via_fn]
proof fn split_lines_decreases(s: Seq<char>) {
    if s.len() != 0 {
        lemma_first_nl_props(s, 0);
    }
}

/// No line of a text is longer than the text.
pub proof fn lemma_split_lines_len(s: Seq<char>)
    ensures
        forall|k: int| 0 <= k < split_lines(s).len() ==> split_lines(s)[k].len() <= s.len(),
    decreases s.len(),
{
    if s.len() != 0 {
        lemma_first_nl_props(s, 0);
        let i = first_nl_from(s, 0);
        if i < s.len() {
            let rest = s.skip(i + 1);
            lemma_split_lines_len(rest);
            assert forall|k: int| 0 <= k < split_lines(s).len() implies split_lines(s)[k].len()
                <= s.len() by {
                if k == 0 {
                    assert(strip_cr(s.take(i)).len() <= i);
                } else {
                    assert(split_lines(s)[k] == split_lines(rest)[k - 1]);
                }
            }
        }
    }
}

fn find_nl(s: &str, start: usize) -> (r: usize)
    requires
        start <= s@.len(),
    ensures
        start <= r <= s@.len(),
        forall|k: int| start <= k < r ==> s@[k] != '\n',
        r < s@.len() ==> s@[r as int] == '\n',
{
    let n = s.unicode_len();
    let mut i: usize = start;
    while i < n
        invariant
            start <= i <= n == s@.len(),
            forall|k: int| start <= k < i ==> s@[k] != '\n',
        decreases n - i,
    {
        if s.get_char(i) == '\n' {
            return i;
        }
        i += 1;
    }
    i
}

/// Splits a text on line breaks, as the lines of a text are read.
pub fn split_into_lines(input: &str) -> (r: Vec<String>)
    ensures
        strings_view(r@) == split_lines(input@),
{
    let n = input.unicode_len();
    let mut out: Vec<String> = Vec::new();
    let mut start: usize = 0;
    proof {
        assert(input@.skip(0) =~= input@);
        assert(strings_view(out@) + split_lines(input@) =~= split_lines(input@));
    }
    while start < n
        invariant
            start <= n == input@.len(),
            split_lines(input@) == strings_view(out@) + split_lines(input@.skip(start as int)),
        decreases n - start,
    {
        let ghost t = input@.skip(start as int);
        let i = find_nl(input, start);
        proof {
            assert forall|j: int| 0 <= j < i - start implies t[j] != '\n' by {
                assert(t[j] == input@[start + j]);
            }
            if i < n {
                assert(t[i - start] == '\n');
            }
            lemma_first_nl_at(t, 0, i as int - start as int);
        }
        if i < n {
            let end = if i > start && input.get_char(i - 1) == '\r' {
                i - 1
            } else {
                i
            };
            let seg = input.substring_char(start, end);
            out.push(seg.to_owned());
            proof {
                assert(t.take(i as int - start as int) =~= input@.subrange(start as int, i as int));
                assert(strip_cr(t.take(i as int - start as int)) =~= input@.subrange(
                    start as int,
                    end as int,
                ));
                assert(t.skip(i as int - start as int + 1) =~= input@.skip(i as int + 1));
                assert(split_lines(t) == seq![strip_cr(t.take(i as int - start as int))]
                    + split_lines(input@.skip(i as int + 1)));
                assert(strings_view(out@) =~= strings_view(out@.drop_last()) + seq![
                    input@.subrange(start as int, end as int),
                ]);
                assert(strings_view(out@) + split_lines(input@.skip(i as int + 1))
                    =~= (strings_view(out@.drop_last()) + split_lines(t)));
            }
            start = i + 1;
        } else {
            let seg = input.substring_char(start, n);
            out.push(seg.to_owned());
            proof {
                assert(first_nl_from(t, 0) == t.len());
                assert(input@.subrange(start as int, n as int) =~= t);
                assert(split_lines(t) == seq![t]);
                assert(input@.skip(n as int).len() == 0);
                assert(split_lines(input@.skip(n as int)) =~= Seq::<Seq<char>>::empty());
                assert(strings_view(out@) =~= strings_view(out@.drop_last()) + seq![t]);
                assert(strings_view(out@) + split_lines(input@.skip(n as int)) =~= strings_view(
                    out@.drop_last(),
                ) + split_lines(t));
            }
            start = n;
        }
    }
    proof {
        assert(input@.skip(n as int).len() == 0);
        assert(split_lines(input@.skip(n as int)) =~= Seq::<Seq<char>>::empty());
        assert(strings_view(out@) + Seq::<Seq<char>>::empty() =~= strings_view(out@));
    }
    out
}

pub open spec fn max_len_prefix(content: Seq<Seq<char>>, n: int) -> int
    decreases n,
{
    if n <= 0 {
        0
    } else {
        let prev = max_len_prefix(content, n - 1);
        let cur = content[n - 1].len() as int;
        if cur > prev {
            cur
        } else {
            prev
        }
    }
}

/// The inner width of the bubble: the longest line, with a floor of 24.
pub open spec fn bubble_width(content: Seq<Seq<char>>) -> int {
    let m = max_len_prefix(content, content.len() as int);
    if m < 24 {
        24
    } else {
        m
    }
}

pub open spec fn sp(n: int) -> Seq<char> {
    char_repeat(' ', n)
}

pub open spec fn dashes(n: int) -> Seq<char> {
    char_repeat('-', n)
}

/// One bubble line: the text centered in the inner width, any odd padding
/// space going to the right.
pub open spec fn bubble_line(line: Seq<char>, m: int) -> Seq<char> {
    "| "@ + sp((m - line.len()) / 2) + line + sp((m - line.len()) - (m - line.len()) / 2) + " |\n"@
}

pub open spec fn bubble_lines_prefix(content: Seq<Seq<char>>, m: int, n: int) -> Seq<char>
    decreases n,
{
    if n <= 0 {
        Seq::empty()
    } else {
        bubble_lines_prefix(content, m, n - 1) + bubble_line(content[n - 1], m)
    }
}

/// The whole speech bubble: a dashed border above and below the centered
/// lines, and the bubble's tail.
pub open spec fn bubble_spec(content: Seq<Seq<char>>) -> Seq<char> {
    let m = bubble_width(content);
    "+"@ + dashes(m + 2) + "+\n"@ + bubble_lines_prefix(content, m, content.len() as int) + "+"@
        + dashes(m + 2) + "+\n"@ + "                //\n"@ + "               //\n"@
}

proof fn lemma_max_len_bound(content: Seq<Seq<char>>, i: int, n: int)
    requires
        0 <= i < n,
    ensures
        content[i].len() <= max_len_prefix(content, n),
    decreases n,
{
    if i < n - 1 {
        lemma_max_len_bound(content, i, n - 1);
    }
}

proof fn lemma_max_len_nonneg(content: Seq<Seq<char>>, n: int)
    ensures
        max_len_prefix(content, n) >= 0,
    decreases n,
{
    if n > 0 {
        lemma_max_len_nonneg(content, n - 1);
    }
}

/// Draws the speech bubble around the given lines.
pub fn speech_bubble(content: &Vec<String>) -> (r: String)
    requires
        forall|i: int| 0 <= i < content@.len() ==> (#[trigger] content@[i])@.len() + 2 <= usize::MAX,
    ensures
        r@ == bubble_spec(strings_view(content@)),
{
    let ghost cv = strings_view(content@);
    // The longest line, with a floor of 24.
    let mut m: usize = 0;
    let mut i: usize = 0;
    while i < content.len()
        invariant
            i <= content@.len(),
            cv == strings_view(content@),
            forall|k: int| 0 <= k < content@.len() ==> (#[trigger] content@[k])@.len() + 2
                <= usize::MAX,
            m == max_len_prefix(cv, i as int),
            m + 2 <= usize::MAX,
        decreases content@.len() - i,
    {
        let l = content[i].as_str().unicode_len();
        if l > m {
            m = l;
        }
        i += 1;
    }
    let width = if m < 24 {
        24
    } else {
        m
    };
    assert(width == bubble_width(cv));
    let mut out = String::new();
    out.append("+");
    push_repeat(&mut out, '-', width + 2);
    out.append("+\n");
    let ghost header = "+"@ + dashes(width as int + 2) + "+\n"@;
    proof {
        assert(out@ =~= header);
    }
    let mut j: usize = 0;
    while j < content.len()
        invariant
            j <= content@.len(),
            cv == strings_view(content@),
            width == bubble_width(cv),
            width >= 24,
            header == "+"@ + dashes(width as int + 2) + "+\n"@,
            out@ == header + bubble_lines_prefix(cv, width as int, j as int),
        decreases content@.len() - j,
    {
        let line = &content[j];
        let l = line.as_str().unicode_len();
        proof {
            lemma_max_len_bound(cv, j as int, cv.len() as int);
            lemma_max_len_nonneg(cv, cv.len() as int);
        }
        let padding = width - l;
        let left = padding / 2;
        let right = padding - left;
        out.append("| ");
        push_repeat(&mut out, ' ', left);
        out.append(line.as_str());
        push_repeat(&mut out, ' ', right);
        out.append(" |\n");
        proof {
            assert(out@ =~= header + bubble_lines_prefix(cv, width as int, j as int + 1));
        }
        j += 1;
    }
    out.append("+");
    push_repeat(&mut out, '-', width + 2);
    out.append("+\n");
    out.append("                //\n");
    out.append("               //\n");
    proof {
        assert(out@ =~= bubble_spec(cv));
    }
    out
}

/// The speech bubble around the given text, split at its line breaks.
pub fn say(text: &str) -> (r: String)
    requires
        text@.len() + 2 <= usize::MAX,
    ensures
        r@ == bubble_spec(split_lines(text@)),
{
    let content = split_into_lines(text);
    proof {
        lemma_split_lines_len(text@);
        assert forall|i: int| 0 <= i < content@.len() implies (#[trigger] content@[i])@.len() + 2
            <= usize::MAX by {
            assert(content@[i]@ == strings_view(content@)[i]);
            assert(strings_view(content@)[i].len() <= text@.len());
        }
    }
    speech_bubble(&content)
}

} // verus!
