use vstd::prelude::*;
use vstd::string::StrSliceExecFns;

verus! {

/// The escape character that introduces every color-control sequence.
pub const ESC: char = '\u{1b}';

/// Relies on `String::push`: appends the one character at the end of the
/// string and changes nothing else.
pub assume_specification[ String::push ](s: &mut String, ch: char)
    ensures
        final(s)@ == old(s)@.push(ch),
;

/// The color-reset control sequence.
pub open spec fn reset_seq() -> Seq<char> {
    seq![ESC, '[', '0', 'm']
}

pub open spec fn digit_char(d: int) -> char {
    ((48 + d) as u8) as char
}

/// Decimal digits of a channel value (0 to 255), without leading zeros.
pub open spec fn dec_seq(n: int) -> Seq<char> {
    if n < 10 {
        seq![digit_char(n)]
    } else if n < 100 {
        seq![digit_char(n / 10), digit_char(n % 10)]
    } else {
        seq![digit_char(n / 100), digit_char((n / 10) % 10), digit_char(n % 10)]
    }
}

/// The 24-bit truecolor foreground control sequence for an RGB triple.
pub open spec fn fg_seq(r: u8, g: u8, b: u8) -> Seq<char> {
    seq![ESC, '[', '3', '8', ';', '2', ';'] + dec_seq(r as int) + seq![';'] + dec_seq(g as int)
        + seq![';'] + dec_seq(b as int) + seq!['m']
}

/// The 24-bit truecolor background control sequence for an RGB triple.
pub open spec fn bg_seq(r: u8, g: u8, b: u8) -> Seq<char> {
    seq![ESC, '[', '4', '8', ';', '2', ';'] + dec_seq(r as int) + seq![';'] + dec_seq(g as int)
        + seq![';'] + dec_seq(b as int) + seq!['m']
}

/// Index of the first 'm' at or after `i`, or `s.len()` when there is none.
pub open spec fn first_m_from(s: Seq<char>, i: int) -> int
    decreases s.len() - i,
{
    if i < 0 || i >= s.len() {
        s.len() as int
    } else if s[i] == 'm' {
        i
    } else {
        first_m_from(s, i + 1)
    }
}

/// The string opens with a complete color-control sequence: an escape, a
/// bracket, and a terminating 'm' somewhere after them.
pub open spec fn starts_with_csi(s: Seq<char>) -> bool {
    s.len() >= 2 && s[0] == ESC && s[1] == '[' && first_m_from(s, 2) < s.len()
}

proof fn lemma_first_m_bounds(s: Seq<char>, i: int)
    requires
        0 <= i <= s.len(),
    ensures
        i <= first_m_from(s, i) <= s.len(),
        first_m_from(s, i) < s.len() ==> s[first_m_from(s, i)] == 'm',
        forall|j: int| i <= j < first_m_from(s, i) ==> s[j] != 'm',
    decreases s.len() - i,
{
    if i < s.len() && s[i] != 'm' {
        lemma_first_m_bounds(s, i + 1);
    }
}

/// The characters of a line with every color-control sequence removed: a
/// complete sequence (escape, bracket, anything up to and including the
/// first 'm') is dropped, every other character is kept.
pub open spec fn strip_ansi(s: Seq<char>) -> Seq<char>
    decreases s.len(),
    via strip_ansi_decreases
{
    if s.len() == 0 {
        s
    } else if starts_with_csi(s) {
        strip_ansi(s.skip(first_m_from(s, 2) + 1))
    } else {
        seq![s[0]] + strip_ansi(s.skip(1))
    }
}

#[via_fn]
proof fn strip_ansi_decreases(s: Seq<char>) {
    if s.len() != 0 && starts_with_csi(s) {
        lemma_first_m_bounds(s, 2);
    }
}

/// Every escape character in the string begins a complete color-control
/// sequence. Lines built by the rasterizer satisfy this, and under it
/// stripping distributes over concatenation.
pub open spec fn ansi_wf(s: Seq<char>) -> bool
    decreases s.len(),
    via ansi_wf_decreases
{
    if s.len() == 0 {
        true
    } else if s[0] == ESC {
        starts_with_csi(s) && ansi_wf(s.skip(first_m_from(s, 2) + 1))
    } else {
        ansi_wf(s.skip(1))
    }
}

#[via_fn]
proof fn ansi_wf_decreases(s: Seq<char>) {
    if s.len() != 0 && s[0] == ESC && starts_with_csi(s) {
        lemma_first_m_bounds(s, 2);
    }
}

/// One complete color-control sequence and nothing more.
pub open spec fn is_escape(e: Seq<char>) -> bool {
    &&& e.len() >= 3
    &&& e[0] == ESC
    &&& e[1] == '['
    &&& e.last() == 'm'
    &&& forall|i: int| 2 <= i < e.len() - 1 ==> e[i] != 'm'
}

proof fn lemma_first_m_at(s: Seq<char>, i: int, k: int)
    requires
        0 <= i <= k < s.len(),
        s[k] == 'm',
        forall|j: int| i <= j < k ==> s[j] != 'm',
    ensures
        first_m_from(s, i) == k,
    decreases k - i,
{
    if i < k {
        lemma_first_m_at(s, i + 1, k);
    }
}

/// A complete escape sequence in front of a string is stripped away whole,
/// and keeps the remainder well formed.
pub proof fn lemma_strip_prepend_escape(e: Seq<char>, rest: Seq<char>)
    requires
        is_escape(e),
    ensures
        strip_ansi(e + rest) == strip_ansi(rest),
        ansi_wf(rest) ==> ansi_wf(e + rest),
{
    let s = e + rest;
    assert forall|j: int| 2 <= j < e.len() - 1 implies s[j] != 'm' by {
        assert(s[j] == e[j]);
    }
    lemma_first_m_at(s, 2, e.len() - 1);
    assert(starts_with_csi(s));
    assert(s.skip(e.len() as int) =~= rest);
}

/// A character that is not an escape stays in front under stripping, and
/// keeps the remainder well formed.
pub proof fn lemma_strip_prepend_char(c: char, rest: Seq<char>)
    requires
        c != ESC,
    ensures
        strip_ansi(seq![c] + rest) == seq![c] + strip_ansi(rest),
        ansi_wf(rest) ==> ansi_wf(seq![c] + rest),
{
    let s = seq![c] + rest;
    assert(s[0] == c);
    assert(!starts_with_csi(s));
    assert(s.skip(1) =~= rest);
}

/// Stripping distributes over concatenation when the front part is well
/// formed, and well-formedness is preserved by concatenation.
pub proof fn lemma_strip_concat(a: Seq<char>, b: Seq<char>)
    requires
        ansi_wf(a),
    ensures
        strip_ansi(a + b) == strip_ansi(a) + strip_ansi(b),
        ansi_wf(b) ==> ansi_wf(a + b),
    decreases a.len(),
{
    if a.len() == 0 {
        assert(a + b =~= b);
        assert(strip_ansi(a) + strip_ansi(b) =~= strip_ansi(b));
    } else if a[0] == ESC {
        lemma_first_m_bounds(a, 2);
        let k = first_m_from(a, 2) + 1;
        let e = a.take(k);
        let tail = a.skip(k);
        assert(is_escape(e)) by {
            assert(e.last() == a[k - 1]);
            assert forall|i: int| 2 <= i < e.len() - 1 implies e[i] != 'm' by {
                assert(e[i] == a[i]);
            }
        }
        assert(a =~= e + tail);
        assert(a + b =~= e + (tail + b));
        lemma_strip_prepend_escape(e, tail + b);
        lemma_strip_prepend_escape(e, tail);
        lemma_strip_concat(tail, b);
        assert(strip_ansi(a) == strip_ansi(e + tail));
        assert(ansi_wf(b) ==> ansi_wf(a + b)) by {
            if ansi_wf(b) {
                assert(ansi_wf(tail + b));
                assert(ansi_wf(e + (tail + b)));
            }
        }
    } else {
        let tail = a.skip(1);
        assert(a =~= seq![a[0]] + tail);
        assert(a + b =~= seq![a[0]] + (tail + b));
        lemma_strip_prepend_char(a[0], tail + b);
        lemma_strip_prepend_char(a[0], tail);
        lemma_strip_concat(tail, b);
        assert(strip_ansi(a) == seq![a[0]] + strip_ansi(tail));
        assert(strip_ansi(a + b) == seq![a[0]] + (strip_ansi(tail) + strip_ansi(b)));
        assert(seq![a[0]] + (strip_ansi(tail) + strip_ansi(b)) =~= (seq![a[0]] + strip_ansi(tail))
            + strip_ansi(b));
        assert(ansi_wf(b) ==> ansi_wf(a + b)) by {
            if ansi_wf(b) {
                assert(ansi_wf(tail + b));
                assert(ansi_wf(seq![a[0]] + (tail + b)));
            }
        }
    }
}

/// The empty string strips to itself and is well formed; an escape sequence
/// alone strips to nothing.
pub proof fn lemma_strip_escape_alone(e: Seq<char>)
    requires
        is_escape(e),
    ensures
        strip_ansi(e) == Seq::<char>::empty(),
        ansi_wf(e),
{
    let empty = Seq::<char>::empty();
    assert(e + empty =~= e);
    lemma_strip_prepend_escape(e, empty);
    assert(strip_ansi(empty) == empty);
    assert(ansi_wf(empty));
}

/// A string without any escape character strips to itself.
pub proof fn lemma_strip_no_esc(s: Seq<char>)
    requires
        forall|i: int| 0 <= i < s.len() ==> s[i] != ESC,
    ensures
        strip_ansi(s) == s,
        ansi_wf(s),
    decreases s.len(),
{
    if s.len() > 0 {
        assert(!starts_with_csi(s));
        lemma_strip_no_esc(s.skip(1));
        assert(seq![s[0]] + s.skip(1) =~= s);
    }
}

proof fn lemma_digit_not_special(d: int)
    requires
        0 <= d <= 9,
    ensures
        digit_char(d) != 'm',
        digit_char(d) != ESC,
{
    assert(digit_char(d) as int == 48 + d);
}

/// The foreground and background color sequences and the reset sequence are
/// each one complete escape sequence.
pub proof fn lemma_color_seqs_are_escapes(r: u8, g: u8, b: u8)
    ensures
        is_escape(fg_seq(r, g, b)),
        is_escape(bg_seq(r, g, b)),
        is_escape(reset_seq()),
{
    let f = fg_seq(r, g, b);
    let k = bg_seq(r, g, b);
    assert forall|i: int| 2 <= i < f.len() - 1 implies f[i] != 'm' by {
        lemma_fg_bg_inner(r, g, b, i);
    }
    assert forall|i: int| 2 <= i < k.len() - 1 implies k[i] != 'm' by {
        lemma_fg_bg_inner(r, g, b, i);
    }
    assert(f.last() == 'm');
    assert(k.last() == 'm');
    assert(reset_seq().len() == 4);
    assert(reset_seq().last() == 'm');
    assert(forall|i: int| 2 <= i < 3 ==> reset_seq()[i] != 'm');
}

proof fn lemma_fg_bg_inner(r: u8, g: u8, b: u8, i: int)
    requires
        2 <= i,
    ensures
        i < fg_seq(r, g, b).len() - 1 ==> fg_seq(r, g, b)[i] != 'm',
        i < bg_seq(r, g, b).len() - 1 ==> bg_seq(r, g, b)[i] != 'm',
{
    let dr = dec_seq(r as int);
    let dg = dec_seq(g as int);
    let db = dec_seq(b as int);
    assert forall|j: int| 0 <= j < dr.len() implies dr[j] != 'm' by {
        lemma_dec_digit(r as int, j);
    }
    assert forall|j: int| 0 <= j < dg.len() implies dg[j] != 'm' by {
        lemma_dec_digit(g as int, j);
    }
    assert forall|j: int| 0 <= j < db.len() implies db[j] != 'm' by {
        lemma_dec_digit(b as int, j);
    }
}

proof fn lemma_dec_digit(n: int, j: int)
    requires
        0 <= n <= 255,
        0 <= j < dec_seq(n).len(),
    ensures
        dec_seq(n)[j] != 'm',
        dec_seq(n)[j] != ESC,
{
    if n < 10 {
        lemma_digit_not_special(n);
    } else if n < 100 {
        lemma_digit_not_special(n / 10);
        lemma_digit_not_special(n % 10);
    } else {
        lemma_digit_not_special(n / 100);
        lemma_digit_not_special((n / 10) % 10);
        lemma_digit_not_special(n % 10);
    }
}

/// Relies on `regex::Regex::new` and `Regex::replace_all`: the fixed
/// pattern (an escape, a literal bracket, any run of characters other than
/// 'm', then 'm') matches exactly the color-control sequences that
/// `strip_ansi` drops, and `replace_all` removes every leftmost
/// non-overlapping match.
#[verifier::external_body]
pub fn strip_ansi_codes(line: &str) -> (r: String)
    ensures
        r@ == strip_ansi(line@),
{
    let re = regex::Regex::new("\u{1b}\\[[^m]*m").unwrap();
    re.replace_all(line, "").into_owned()
}

/// The character count of a line once color-control sequences are removed.
pub fn visible_width(line: &str) -> (w: usize)
    ensures
        w == strip_ansi(line@).len(),
{
    let stripped = strip_ansi_codes(line);
    stripped.as_str().unicode_len()
}

fn digit_of(d: u8) -> (c: char)
    requires
        d < 10,
    ensures
        c == digit_char(d as int),
{
    (48 + d) as char
}

fn push_dec(out: &mut String, n: u8)
    ensures
        final(out)@ == old(out)@ + dec_seq(n as int),
{
    if n < 10 {
        out.push(digit_of(n));
    } else if n < 100 {
        out.push(digit_of(n / 10));
        out.push(digit_of(n % 10));
    } else {
        out.push(digit_of(n / 100));
        out.push(digit_of((n / 10) % 10));
        out.push(digit_of(n % 10));
    }
    proof {
        assert(final(out)@ =~= old(out)@ + dec_seq(n as int));
    }
}

/// Appends the 24-bit foreground color sequence for the RGB triple.
pub fn push_fg_code(out: &mut String, r: u8, g: u8, b: u8)
    ensures
        final(out)@ == old(out)@ + fg_seq(r, g, b),
{
    out.push(ESC);
    out.push('[');
    out.push('3');
    out.push('8');
    out.push(';');
    out.push('2');
    out.push(';');
    push_dec(out, r);
    out.push(';');
    push_dec(out, g);
    out.push(';');
    push_dec(out, b);
    out.push('m');
    proof {
        assert(final(out)@ =~= old(out)@ + fg_seq(r, g, b));
    }
}

/// Appends the 24-bit background color sequence for the RGB triple.
pub fn push_bg_code(out: &mut String, r: u8, g: u8, b: u8)
    ensures
        final(out)@ == old(out)@ + bg_seq(r, g, b),
{
    out.push(ESC);
    out.push('[');
    out.push('4');
    out.push('8');
    out.push(';');
    out.push('2');
    out.push(';');
    push_dec(out, r);
    out.push(';');
    push_dec(out, g);
    out.push(';');
    push_dec(out, b);
    out.push('m');
    proof {
        assert(final(out)@ =~= old(out)@ + bg_seq(r, g, b));
    }
}

/// Appends the color-reset sequence.
pub fn push_reset(out: &mut String)
    ensures
        final(out)@ == old(out)@ + reset_seq(),
{
    out.push(ESC);
    out.push('[');
    out.push('0');
    out.push('m');
    proof {
        assert(final(out)@ =~= old(out)@ + reset_seq());
    }
}

} // verus!
