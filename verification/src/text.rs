//! Character-level text utilities for the tab strip and the body: plain
//! clipping, ANSI-aware clipping and stripping, ellipsis truncation, and the
//! fixed-width unread badge.

use vstd::prelude::*;
use vstd::string::StrSliceExecFns;
use vstd::string::StringExecFns;

verus! {

/// A run of `n` spaces.
pub open spec fn spaces(n: nat) -> Seq<char> {
    Seq::new(n, |i: int| ' ')
}

/// The first `width` characters of `s`, or all of `s` when it is shorter.
pub open spec fn spec_clip(s: Seq<char>, width: nat) -> Seq<char> {
    s.take(
        if width < s.len() {
            width as int
        } else {
            s.len() as int
        },
    )
}

/// Relies on std's `String::push`: appends exactly the one character.
#[verifier::external_body]
pub(crate) fn push_char(s: &mut String, c: char)
    ensures
        final(s)@ == old(s)@.push(c),
{
    s.push(c);
}

/// Clip a plain line to `width` characters.
pub fn clip_to_width(text: &str, width: usize) -> (r: String)
    ensures
        r@ == spec_clip(text@, width as nat),
{
    let n = text.unicode_len();
    let end = if width < n {
        width
    } else {
        n
    };
    text.substring_char(0, end).to_owned()
}

/// Append `count` spaces to `out`.
fn push_spaces(out: &mut String, count: usize)
    ensures
        final(out)@ == old(out)@ + spaces(count as nat),
{
    let mut k: usize = 0;
    while k < count
        invariant
            k <= count,
            out@ == old(out)@ + spaces(k as nat),
        decreases count - k,
    {
        push_char(out, ' ');
        proof {
            assert(old(out)@ + spaces(k as nat) + seq![' '] =~= old(out)@ + spaces(
                (k + 1) as nat,
            ));
        }
        k += 1;
    }
    proof {
        assert(out@ =~= old(out)@ + spaces(count as nat));
    }
}

/// A byte in `0x40..=0x7E` ends an ANSI control sequence.
pub open spec fn spec_is_ansi_final(ch: char) -> bool {
    0x40 <= (ch as u32) <= 0x7e
}

/// Whether `ch` is the final byte of an ANSI control sequence.
pub fn is_ansi_final_byte(ch: char) -> (r: bool)
    ensures
        r == spec_is_ansi_final(ch),
{
    (ch as u32) >= 0x40 && (ch as u32) <= 0x7e
}

/// Where an ANSI scan stands: in plain text, right after an escape byte, or
/// inside a bracketed control sequence.
#[derive(Clone, Copy, PartialEq, Eq, Structural, Debug)]
pub enum AnsiScan {
    Plain,
    AfterEsc,
    InSeq,
}

/// One step of the stripping scan: the next state, and the characters kept
/// (the character itself in plain text, nothing inside an escape).
pub open spec fn strip_step(st: AnsiScan, c: char) -> (AnsiScan, Seq<char>) {
    match st {
        AnsiScan::Plain => if c == '\u{1b}' {
            (AnsiScan::AfterEsc, Seq::empty())
        } else {
            (AnsiScan::Plain, seq![c])
        },
        AnsiScan::AfterEsc => if c == '[' {
            (AnsiScan::InSeq, Seq::empty())
        } else {
            (AnsiScan::Plain, Seq::empty())
        },
        AnsiScan::InSeq => if spec_is_ansi_final(c) {
            (AnsiScan::Plain, Seq::empty())
        } else {
            (AnsiScan::InSeq, Seq::empty())
        },
    }
}

/// The visible characters of `s` when scanned from state `st`.
pub open spec fn strip_from(st: AnsiScan, s: Seq<char>) -> Seq<char>
    decreases s.len(),
{
    if s.len() == 0 {
        Seq::empty()
    } else {
        strip_step(st, s[0]).1 + strip_from(strip_step(st, s[0]).0, s.drop_first())
    }
}

/// `s` with every ANSI escape sequence removed: only its visible characters.
pub open spec fn spec_strip_ansi(s: Seq<char>) -> Seq<char> {
    strip_from(AnsiScan::Plain, s)
}

/// Remove ANSI escape sequences, keeping only the visible characters.
pub fn strip_ansi(text: &str) -> (r: String)
    ensures
        r@ == spec_strip_ansi(text@),
{
    let n = text.unicode_len();
    let mut out = String::new();
    let mut st = AnsiScan::Plain;
    let mut i: usize = 0;
    proof {
        assert(text@.skip(0) =~= text@);
    }
    while i < n
        invariant
            n == text@.len(),
            i <= n,
            spec_strip_ansi(text@) == out@ + strip_from(st, text@.skip(i as int)),
        decreases n - i,
    {
        let ghost tail = text@.skip(i as int);
        let ghost st0 = st;
        let ghost out0 = out@;
        proof {
            assert(tail.len() > 0);
            assert(tail[0] == text@[i as int]);
            assert(tail.drop_first() =~= text@.skip(i + 1));
        }
        let c = text.get_char(i);
        match st {
            AnsiScan::Plain => {
                if c == '\u{1b}' {
                    st = AnsiScan::AfterEsc;
                } else {
                    push_char(&mut out, c);
                }
            },
            AnsiScan::AfterEsc => {
                st = if c == '[' {
                    AnsiScan::InSeq
                } else {
                    AnsiScan::Plain
                };
            },
            AnsiScan::InSeq => {
                st = if is_ansi_final_byte(c) {
                    AnsiScan::Plain
                } else {
                    AnsiScan::InSeq
                };
            },
        }
        proof {
            assert(st == strip_step(st0, tail[0]).0);
            assert(out@ =~= out0 + strip_step(st0, tail[0]).1);
            assert(strip_from(st0, tail) == strip_step(st0, tail[0]).1 + strip_from(
                st,
                tail.drop_first(),
            ));
            assert(out@ + strip_from(st, text@.skip(i + 1)) =~= out0 + strip_from(st0, tail));
        }
        i += 1;
    }
    proof {
        assert(text@.skip(n as int) =~= Seq::<char>::empty());
        assert(out@ =~= spec_strip_ansi(text@));
    }
    out
}

/// The reset sequence appended when a styled line is cut short.
pub open spec fn reset_seq() -> Seq<char> {
    seq!['\u{1b}', '[', '0', 'm']
}

/// The output of the width-aware scan from state `st`, having already shown
/// `visible` characters of a budget of `width`, with `saw` recording whether
/// any escape was seen. Escape sequences are copied without counting; a
/// visible character past the budget stops the scan, closing with a style
/// reset when any escape went by.
pub open spec fn clip_from(st: AnsiScan, visible: nat, saw: bool, width: nat, s: Seq<char>) -> Seq<
    char,
>
    decreases s.len(),
{
    if s.len() == 0 {
        Seq::empty()
    } else {
        let c = s[0];
        match st {
            AnsiScan::Plain => if c == '\u{1b}' {
                seq![c] + clip_from(AnsiScan::AfterEsc, visible, true, width, s.drop_first())
            } else if visible >= width {
                if saw {
                    reset_seq()
                } else {
                    Seq::empty()
                }
            } else {
                seq![c] + clip_from(AnsiScan::Plain, visible + 1, saw, width, s.drop_first())
            },
            AnsiScan::AfterEsc => {
                let next = if c == '[' {
                    AnsiScan::InSeq
                } else {
                    AnsiScan::Plain
                };
                seq![c] + clip_from(next, visible, saw, width, s.drop_first())
            },
            AnsiScan::InSeq => {
                let next = if spec_is_ansi_final(c) {
                    AnsiScan::Plain
                } else {
                    AnsiScan::InSeq
                };
                seq![c] + clip_from(next, visible, saw, width, s.drop_first())
            },
        }
    }
}

/// `s` clipped to `width` visible characters with its ANSI sequences kept;
/// width zero yields nothing at all.
pub open spec fn spec_clip_ansi(s: Seq<char>, width: nat) -> Seq<char> {
    if width == 0 {
        Seq::empty()
    } else {
        clip_from(AnsiScan::Plain, 0, false, width, s)
    }
}

/// Clip a line to `width` visible characters: ANSI escape sequences are
/// copied through without counting toward the width, and if the line was cut
/// while any styling had been emitted, a reset is appended so the styling
/// cannot bleed past the line.
pub fn clip_ansi_to_visible_width(text: &str, width: usize) -> (r: String)
    ensures
        r@ == spec_clip_ansi(text@, width as nat),
{
    if width == 0 {
        return String::new();
    }
    let n = text.unicode_len();
    let mut out = String::new();
    let mut st = AnsiScan::Plain;
    let mut visible: usize = 0;
    let mut saw = false;
    let mut i: usize = 0;
    proof {
        assert(text@.skip(0) =~= text@);
    }
    while i < n
        invariant
            n == text@.len(),
            i <= n,
            width >= 1,
            visible <= width,
            spec_clip_ansi(text@, width as nat) == out@ + clip_from(
                st,
                visible as nat,
                saw,
                width as nat,
                text@.skip(i as int),
            ),
        decreases n - i,
    {
        let ghost tail = text@.skip(i as int);
        let ghost st0 = st;
        let ghost out0 = out@;
        let ghost visible0 = visible as nat;
        let ghost saw0 = saw;
        proof {
            assert(tail.len() > 0);
            assert(tail[0] == text@[i as int]);
            assert(tail.drop_first() =~= text@.skip(i + 1));
        }
        let c = text.get_char(i);
        match st {
            AnsiScan::Plain => {
                if c == '\u{1b}' {
                    push_char(&mut out, c);
                    saw = true;
                    st = AnsiScan::AfterEsc;
                } else if visible >= width {
                    proof {
                        assert(clip_from(st0, visible0, saw0, width as nat, tail) == if saw0 {
                            reset_seq()
                        } else {
                            Seq::<char>::empty()
                        });
                    }
                    if saw {
                        push_char(&mut out, '\u{1b}');
                        push_char(&mut out, '[');
                        push_char(&mut out, '0');
                        push_char(&mut out, 'm');
                        proof {
                            assert(out@ =~= out0 + reset_seq());
                            assert(out@ =~= spec_clip_ansi(text@, width as nat));
                        }
                    } else {
                        proof {
                            assert(out@ =~= spec_clip_ansi(text@, width as nat));
                        }
                    }
                    return out;
                } else {
                    push_char(&mut out, c);
                    visible += 1;
                }
            },
            AnsiScan::AfterEsc => {
                push_char(&mut out, c);
                st = if c == '[' {
                    AnsiScan::InSeq
                } else {
                    AnsiScan::Plain
                };
            },
            AnsiScan::InSeq => {
                push_char(&mut out, c);
                st = if is_ansi_final_byte(c) {
                    AnsiScan::Plain
                } else {
                    AnsiScan::InSeq
                };
            },
        }
        proof {
            assert(clip_from(st0, visible0, saw0, width as nat, tail) == seq![tail[0]]
                + clip_from(st, visible as nat, saw, width as nat, tail.drop_first()));
            assert(out@ =~= out0.push(c));
            assert(out@ + clip_from(st, visible as nat, saw, width as nat, text@.skip(i + 1))
                =~= out0 + clip_from(st0, visible0, saw0, width as nat, tail));
        }
        i += 1;
    }
    proof {
        assert(text@.skip(n as int) =~= Seq::<char>::empty());
        assert(out@ =~= spec_clip_ansi(text@, width as nat));
    }
    out
}

/// Scanning the reset sequence keeps no character and returns to plain text.
proof fn lemma_strip_reset()
    ensures
        strip_from(AnsiScan::Plain, reset_seq()) == Seq::<char>::empty(),
{
    let r = reset_seq();
    let r1 = r.drop_first();
    let r2 = r1.drop_first();
    let r3 = r2.drop_first();
    let r4 = r3.drop_first();
    assert(r1 =~= seq!['[', '0', 'm']);
    assert(r2 =~= seq!['0', 'm']);
    assert(r3 =~= seq!['m']);
    assert(r4 =~= Seq::<char>::empty());
    assert(!spec_is_ansi_final('0'));
    assert(spec_is_ansi_final('m'));
    assert(strip_from(AnsiScan::Plain, r) =~= strip_from(AnsiScan::AfterEsc, r1));
    assert(strip_from(AnsiScan::AfterEsc, r1) =~= strip_from(AnsiScan::InSeq, r2));
    assert(strip_from(AnsiScan::InSeq, r2) =~= strip_from(AnsiScan::InSeq, r3));
    assert(strip_from(AnsiScan::InSeq, r3) =~= strip_from(AnsiScan::Plain, r4));
}

/// From any aligned state, the visible characters of a width-aware clip are
/// exactly the first characters of the fully stripped text, up to the budget
/// that remains.
proof fn lemma_clip_strip_from(st: AnsiScan, visible: nat, saw: bool, width: nat, s: Seq<char>)
    requires
        visible <= width,
    ensures
        strip_from(st, clip_from(st, visible, saw, width, s)) == spec_clip(
            strip_from(st, s),
            (width - visible) as nat,
        ),
    decreases s.len(),
{
    if s.len() == 0 {
        assert(strip_from(st, clip_from(st, visible, saw, width, s)) =~= spec_clip(
            strip_from(st, s),
            (width - visible) as nat,
        ));
    } else {
        let c = s[0];
        let s1 = s.drop_first();
        match st {
            AnsiScan::Plain => {
                if c == '\u{1b}' {
                    lemma_clip_strip_from(AnsiScan::AfterEsc, visible, true, width, s1);
                    let inner = clip_from(AnsiScan::AfterEsc, visible, true, width, s1);
                    assert((seq![c] + inner).drop_first() =~= inner);
                    assert(strip_from(st, seq![c] + inner) =~= strip_from(
                        AnsiScan::AfterEsc,
                        inner,
                    ));
                    assert(strip_from(st, s) =~= strip_from(AnsiScan::AfterEsc, s1));
                } else if visible >= width {
                    lemma_strip_reset();
                    assert(strip_from(st, clip_from(st, visible, saw, width, s)) =~= Seq::<
                        char,
                    >::empty());
                    assert(spec_clip(strip_from(st, s), 0) =~= Seq::<char>::empty());
                } else {
                    lemma_clip_strip_from(AnsiScan::Plain, visible + 1, saw, width, s1);
                    let inner = clip_from(AnsiScan::Plain, visible + 1, saw, width, s1);
                    assert((seq![c] + inner).drop_first() =~= inner);
                    assert(strip_from(st, seq![c] + inner) =~= seq![c] + strip_from(
                        AnsiScan::Plain,
                        inner,
                    ));
                    assert(strip_from(st, s) =~= seq![c] + strip_from(AnsiScan::Plain, s1));
                    assert(seq![c] + spec_clip(strip_from(AnsiScan::Plain, s1), (width - visible
                        - 1) as nat) =~= spec_clip(
                        seq![c] + strip_from(AnsiScan::Plain, s1),
                        (width - visible) as nat,
                    ));
                }
            },
            AnsiScan::AfterEsc => {
                let next = if c == '[' {
                    AnsiScan::InSeq
                } else {
                    AnsiScan::Plain
                };
                lemma_clip_strip_from(next, visible, saw, width, s1);
                let inner = clip_from(next, visible, saw, width, s1);
                assert((seq![c] + inner).drop_first() =~= inner);
                assert(strip_from(st, seq![c] + inner) =~= strip_from(next, inner));
                assert(strip_from(st, s) =~= strip_from(next, s1));
            },
            AnsiScan::InSeq => {
                let next = if spec_is_ansi_final(c) {
                    AnsiScan::Plain
                } else {
                    AnsiScan::InSeq
                };
                lemma_clip_strip_from(next, visible, saw, width, s1);
                let inner = clip_from(next, visible, saw, width, s1);
                assert((seq![c] + inner).drop_first() =~= inner);
                assert(strip_from(st, seq![c] + inner) =~= strip_from(next, inner));
                assert(strip_from(st, s) =~= strip_from(next, s1));
            },
        }
    }
}

/// Round trip of the two drawing paths: stripping the escapes out of a
/// width-clipped styled line leaves exactly the same visible characters as
/// stripping first and clipping plainly.
pub proof fn lemma_strip_clip_roundtrip(s: Seq<char>, width: nat)
    ensures
        spec_strip_ansi(spec_clip_ansi(s, width)) == spec_clip(spec_strip_ansi(s), width),
{
    if width == 0 {
        assert(spec_strip_ansi(spec_clip_ansi(s, 0)) =~= spec_clip(spec_strip_ansi(s), 0));
    } else {
        lemma_clip_strip_from(AnsiScan::Plain, 0, false, width, s);
    }
}

/// The decimal digit character for `d`.
pub open spec fn digit_char(d: nat) -> char {
    if d == 0 {
        '0'
    } else if d == 1 {
        '1'
    } else if d == 2 {
        '2'
    } else if d == 3 {
        '3'
    } else if d == 4 {
        '4'
    } else if d == 5 {
        '5'
    } else if d == 6 {
        '6'
    } else if d == 7 {
        '7'
    } else if d == 8 {
        '8'
    } else {
        '9'
    }
}

/// The decimal rendering of `n`, most significant digit first, no sign and no
/// leading zero except for zero itself.
pub open spec fn spec_decimal(n: nat) -> Seq<char>
    decreases n,
{
    if n < 10 {
        seq![digit_char(n)]
    } else {
        spec_decimal(n / 10) + seq![digit_char(n % 10)]
    }
}

fn digit_char_exec(d: u64) -> (c: char)
    requires
        d < 10,
    ensures
        c == digit_char(d as nat),
{
    if d == 0 {
        '0'
    } else if d == 1 {
        '1'
    } else if d == 2 {
        '2'
    } else if d == 3 {
        '3'
    } else if d == 4 {
        '4'
    } else if d == 5 {
        '5'
    } else if d == 6 {
        '6'
    } else if d == 7 {
        '7'
    } else if d == 8 {
        '8'
    } else {
        '9'
    }
}

/// Render `n` in decimal.
pub fn u64_to_decimal(n: u64) -> (s: String)
    ensures
        s@ == spec_decimal(n as nat),
{
    let mut rev_digits: Vec<char> = Vec::new();
    let mut m = n;
    while m >= 10
        invariant
            spec_decimal(n as nat) == spec_decimal(m as nat) + rev_digits@.reverse(),
        decreases m,
    {
        let d = m % 10;
        proof {
            assert(spec_decimal(m as nat) == spec_decimal((m as nat) / 10) + seq![
                digit_char((m as nat) % 10)
            ]);
            assert(rev_digits@.push(digit_char(d as nat)).reverse() =~= seq![
                digit_char((m as nat) % 10)
            ] + rev_digits@.reverse());
            assert(spec_decimal((m as nat) / 10) + seq![digit_char((m as nat) % 10)]
                + rev_digits@.reverse() =~= spec_decimal((m as nat) / 10) + (seq![
                digit_char((m as nat) % 10)
            ] + rev_digits@.reverse()));
        }
        rev_digits.push(digit_char_exec(d));
        m = m / 10;
    }
    let mut s = String::new();
    push_char(&mut s, digit_char_exec(m));
    let mut j: usize = rev_digits.len();
    while j > 0
        invariant
            j <= rev_digits@.len(),
            spec_decimal(n as nat) == spec_decimal(m as nat) + rev_digits@.reverse(),
            s@ == seq![digit_char(m as nat)] + rev_digits@.subrange(
                j as int,
                rev_digits@.len() as int,
            ).reverse(),
            m < 10,
        decreases j,
    {
        j -= 1;
        push_char(&mut s, rev_digits[j]);
        proof {
            assert(rev_digits@.subrange(j as int, rev_digits@.len() as int).reverse() =~= rev_digits@.subrange(
                j + 1,
                rev_digits@.len() as int,
            ).reverse().push(rev_digits@[j as int]));
        }
    }
    proof {
        assert(rev_digits@.subrange(0, rev_digits@.len() as int) =~= rev_digits@);
        assert(s@ =~= spec_decimal(m as nat) + rev_digits@.reverse());
    }
    s
}

/// Decimal renderings are short for small numbers: at most three characters
/// up to 999.
pub proof fn lemma_decimal_len_le_3(n: nat)
    requires
        n <= 999,
    ensures
        1 <= spec_decimal(n).len() <= 3,
{
    if n < 10 {
        assert(spec_decimal(n).len() == 1);
    } else if n < 100 {
        assert(n / 10 < 10);
        assert(spec_decimal(n / 10).len() == 1);
        assert(spec_decimal(n) == spec_decimal(n / 10) + seq![digit_char(n % 10)]);
    } else {
        assert(10 <= n / 10 < 100);
        assert((n / 10) / 10 < 10);
        assert(spec_decimal((n / 10) / 10).len() == 1);
        assert(spec_decimal(n / 10) == spec_decimal((n / 10) / 10) + seq![
            digit_char((n / 10) % 10)
        ]);
        assert(spec_decimal(n) == spec_decimal(n / 10) + seq![digit_char(n % 10)]);
    }
}

/// Ten to the `k`.
pub open spec fn pow10(k: nat) -> nat
    decreases k,
{
    if k == 0 {
        1
    } else {
        10 * pow10((k - 1) as nat)
    }
}

proof fn lemma_decimal_len_lt(n: nat, k: nat)
    requires
        k >= 1,
        n < pow10(k),
    ensures
        spec_decimal(n).len() <= k,
    decreases k,
{
    if n >= 10 {
        assert(pow10(k) == 10 * pow10((k - 1) as nat));
        assert(n / 10 < pow10((k - 1) as nat));
        lemma_decimal_len_lt(n / 10, (k - 1) as nat);
    }
}

/// No 64-bit value needs more than twenty decimal digits.
pub proof fn lemma_decimal_len_le_20(n: u64)
    ensures
        1 <= spec_decimal(n as nat).len() <= 20,
{
    reveal_with_fuel(pow10, 21);
    assert(pow10(20) == 100000000000000000000);
    lemma_decimal_len_lt(n as nat, 20);
}

/// The fixed six-column unread badge: blank when nothing is unread, a
/// right-aligned bullet and count up to 999, and a saturated `{bullet}999+`
/// beyond.
pub open spec fn spec_unread_slot(unread: u64) -> Seq<char> {
    if unread == 0 {
        spaces(6)
    } else {
        let badge = if unread > 999 {
            seq!['\u{2022}', '9', '9', '9', '+']
        } else {
            seq!['\u{2022}'] + spec_decimal(unread as nat)
        };
        spaces((6 - badge.len()) as nat) + badge
    }
}

/// Render the unread badge for a tab, always exactly six columns.
pub fn format_unread_slot(unread: u64) -> (r: String)
    ensures
        r@ == spec_unread_slot(unread),
        r@.len() == 6,
{
    let mut out = String::new();
    if unread == 0 {
        push_spaces(&mut out, 6);
        proof {
            assert(out@ =~= spec_unread_slot(unread));
        }
        return out;
    }
    if unread > 999 {
        push_char(&mut out, '\u{2022}');
        push_char(&mut out, '9');
        push_char(&mut out, '9');
        push_char(&mut out, '9');
        push_char(&mut out, '+');
        let mut padded = String::new();
        push_spaces(&mut padded, 1);
        padded.append(out.as_str());
        proof {
            assert(padded@ =~= spec_unread_slot(unread));
        }
        return padded;
    }
    proof {
        lemma_decimal_len_le_3(unread as nat);
    }
    let digits = u64_to_decimal(unread);
    let mut badge = String::new();
    push_char(&mut badge, '\u{2022}');
    badge.append(digits.as_str());
    let mut padded = String::new();
    let pad = 6 - (1 + digits.unicode_len());
    push_spaces(&mut padded, pad);
    padded.append(badge.as_str());
    proof {
        assert(padded@ =~= spec_unread_slot(unread));
    }
    padded
}

/// The label on a tab's keyboard shortcut: `0` for the first tab, the tab's
/// decimal index for the rest.
pub fn tab_shortcut_label(index: usize) -> (r: String)
    ensures
        r@ == spec_decimal(index as nat),
{
    u64_to_decimal(index as u64)
}

/// `s` truncated to `width` characters with a trailing ellipsis when it does
/// not fit; a budget of three or less degenerates to a run of dots.
pub open spec fn spec_clip_ellipsis(s: Seq<char>, width: nat) -> Seq<char> {
    if width == 0 {
        Seq::empty()
    } else if s.len() <= width {
        s
    } else if width <= 3 {
        Seq::new(width, |i: int| '.')
    } else {
        s.take(width - 3) + seq!['.', '.', '.']
    }
}

/// Truncate a label to `width` characters, marking the cut with an ellipsis.
pub fn clip_with_ellipsis(text: &str, width: usize) -> (r: String)
    ensures
        r@ == spec_clip_ellipsis(text@, width as nat),
        r@.len() == if text@.len() <= width {
            text@.len()
        } else {
            width as nat
        },
{
    if width == 0 {
        return String::new();
    }
    let char_count = text.unicode_len();
    if char_count <= width {
        return text.to_owned();
    }
    if width <= 3 {
        let mut out = String::new();
        let mut k: usize = 0;
        while k < width
            invariant
                k <= width,
                out@ == Seq::new(k as nat, |i: int| '.'),
            decreases width - k,
        {
            push_char(&mut out, '.');
            proof {
                assert(out@ =~= Seq::new((k + 1) as nat, |i: int| '.'));
            }
            k += 1;
        }
        return out;
    }
    let mut out = text.substring_char(0, width - 3).to_owned();
    push_char(&mut out, '.');
    push_char(&mut out, '.');
    push_char(&mut out, '.');
    proof {
        assert(out@ =~= spec_clip_ellipsis(text@, width as nat));
    }
    out
}

/// A tab title fitted to an exact budget: one space each side of the
/// (possibly ellipsized) label, padded with spaces to fill the budget; tiny
/// budgets give bare spaces.
pub open spec fn spec_fit_tab_title(label: Seq<char>, width: nat) -> Seq<char> {
    if width == 0 {
        Seq::empty()
    } else if width == 1 {
        seq![' ']
    } else if width == 2 {
        seq![' ', ' ']
    } else {
        let piece = seq![' '] + spec_clip_ellipsis(label, (width - 2) as nat) + seq![' '];
        piece + spaces((width - piece.len()) as nat)
    }
}

/// Render a tab title into exactly `width` columns.
pub fn fit_tab_title(label: &str, width: usize) -> (r: String)
    ensures
        r@ == spec_fit_tab_title(label@, width as nat),
        r@.len() == width,
{
    if width == 0 {
        return String::new();
    }
    if width == 1 {
        let mut out = String::new();
        push_char(&mut out, ' ');
        return out;
    }
    if width == 2 {
        let mut out = String::new();
        push_char(&mut out, ' ');
        push_char(&mut out, ' ');
        return out;
    }
    let clipped = clip_with_ellipsis(label, width - 2);
    let mut piece = String::new();
    push_char(&mut piece, ' ');
    piece.append(clipped.as_str());
    push_char(&mut piece, ' ');
    let count = piece.unicode_len();
    push_spaces(&mut piece, width - count);
    proof {
        assert(piece@ =~= spec_fit_tab_title(label@, width as nat));
    }
    piece
}

/// The number of characters of the pause marker shown beside the tab strip.
pub open spec fn spec_paused_label() -> Seq<char> {
    seq![' ', '(', 'p', 'a', 'u', 's', 'e', 'd', ')']
}

/// The literal pause marker drawn to the right of the tab strip.
pub fn paused_label() -> (r: &'static str)
    ensures
        r@ == spec_paused_label(),
{
    proof {
        reveal_strlit(" (paused)");
        assert(" (paused)"@ =~= spec_paused_label());
    }
    " (paused)"
}

/// Columns left for tab boxes once the pause marker has reserved its own.
pub open spec fn spec_tab_limit(total_cols: int, paused: bool) -> int {
    if paused {
        if total_cols >= spec_paused_label().len() {
            total_cols - spec_paused_label().len()
        } else {
            0
        }
    } else {
        total_cols
    }
}

/// Columns left for tab boxes: the pause marker reserves its own width while
/// paused.
pub fn tab_columns_limit(total_cols: usize, paused: bool) -> (r: usize)
    ensures
        r == spec_tab_limit(total_cols as int, paused),
{
    if paused {
        let k = paused_label().unicode_len();
        total_cols.saturating_sub(k)
    } else {
        total_cols
    }
}

} // verus!
