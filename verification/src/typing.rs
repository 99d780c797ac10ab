//! Typing a transcription into the focused window: the text as UTF-16
//! code units, sent as key-down and key-up strokes in batches of 32 units.
use vstd::prelude::*;

use crate::text::chars_of;

verus! {

/// Number of UTF-16 code units sent in one batch.
pub const BATCH_UNITS: usize = 32;

/// One keyboard event carrying a UTF-16 code unit.
pub struct KeyStroke {
    /// The code unit.
    pub unit: u16,
    /// Key release when `true`, key press otherwise.
    pub key_up: bool,
}

/// UTF-16 code units of one character.
pub open spec fn utf16_char(c: char) -> Seq<u16> {
    let u = c as u32;
    if u < 0x10000 {
        seq![u as u16]
    } else {
        seq![(0xD800 + (u - 0x10000) / 1024) as u16, (0xDC00 + (u - 0x10000) % 1024) as u16]
    }
}

/// UTF-16 code units of a text.
pub open spec fn utf16(s: Seq<char>) -> Seq<u16>
    decreases s.len(),
{
    if s.len() == 0 {
        Seq::empty()
    } else {
        utf16(s.drop_last()) + utf16_char(s.last())
    }
}

/// Strokes that type a sequence of code units: a press and a release for
/// each unit other than 0, which is skipped.
pub open spec fn strokes(units: Seq<u16>) -> Seq<KeyStroke>
    decreases units.len(),
{
    if units.len() == 0 {
        Seq::empty()
    } else if units.last() == 0 {
        strokes(units.drop_last())
    } else {
        strokes(units.drop_last()) + seq![
            KeyStroke { unit: units.last(), key_up: false },
            KeyStroke { unit: units.last(), key_up: true },
        ]
    }
}

/// The batches laid end to end.
pub open spec fn flatten(batches: Seq<Seq<KeyStroke>>) -> Seq<KeyStroke>
    decreases batches.len(),
{
    if batches.len() == 0 {
        Seq::empty()
    } else {
        flatten(batches.drop_last()) + batches.last()
    }
}

/// The code units sent for a text: its UTF-16 encoding and a terminating 0.
pub open spec fn wide_text(s: Seq<char>) -> Seq<u16> {
    utf16(s).push(0)
}

/// Units of batch `b`: the `b`-th run of 32 units (the last run may be
/// shorter).
pub open spec fn batch_units(wide: Seq<u16>, b: int) -> Seq<u16> {
    let start = 32 * b;
    let end = if start + 32 <= wide.len() {
        start + 32
    } else {
        wide.len() as int
    };
    wide.subrange(start, end)
}

/// Number of batches for `n` units: `n / 32` rounded up.
pub open spec fn batch_count(n: int) -> int {
    (n + 31) / 32
}

/// The strokes of two runs of units are the strokes of each, one after the
/// other.
pub proof fn lemma_strokes_append(a: Seq<u16>, b: Seq<u16>)
    ensures
        strokes(a + b) == strokes(a) + strokes(b),
    decreases b.len(),
{
    if b.len() == 0 {
        assert(a + b =~= a);
        assert(strokes(a) + strokes(b) =~= strokes(a));
    } else {
        lemma_strokes_append(a, b.drop_last());
        assert((a + b).drop_last() =~= a + b.drop_last());
        assert((a + b).last() == b.last());
        if b.last() == 0 {
        } else {
            assert(strokes(a + b) =~= strokes(a) + strokes(b));
        }
    }
}

/// UTF-16 code units of one character, appended to `out`.
fn push_utf16(out: &mut Vec<u16>, c: char)
    ensures
        final(out)@ == old(out)@ + utf16_char(c),
{
    let u = c as u32;
    if u < 0x10000 {
        out.push(u as u16);
    } else {
        let v = u - 0x10000;
        assert(v / 1024 < 1024 && v % 1024 < 1024) by (nonlinear_arith)
            requires
                v <= 0x10ffff - 0x10000,
        ;
        out.push((0xD800 + v / 1024) as u16);
        out.push((0xDC00 + v % 1024) as u16);
    }
}

/// The strokes that type a transcription, in the batches they are sent in:
/// the text's UTF-16 code units and a terminating 0, cut into runs of 32
/// units; each run becomes a press and a release per unit, 0 skipped. Laid
/// end to end the batches type every code unit of the text, in order.
pub fn auto_type_text(text: &str) -> (batches: Vec<Vec<KeyStroke>>)
    ensures
        batches@.len() == batch_count(wide_text(text@).len() as int),
        forall|b: int|
            0 <= b < batches@.len() ==> #[trigger] batches@[b]@ == strokes(
                batch_units(wide_text(text@), b),
            ),
        flatten(batches@.map_values(|v: Vec<KeyStroke>| v@)) == strokes(utf16(text@)),
{
    let chars = chars_of(text);
    let mut wide: Vec<u16> = Vec::new();
    for i in 0..chars.len()
        invariant
            chars@ == text@,
            wide@ == utf16(text@.take(i as int)),
    {
        proof {
            assert(text@.take(i + 1).drop_last() =~= text@.take(i as int));
        }
        push_utf16(&mut wide, chars[i]);
    }
    proof {
        assert(text@.take(chars@.len() as int) =~= text@);
    }
    wide.push(0);
    let n = wide.len();
    let ghost w = wide@;
    let mut batches: Vec<Vec<KeyStroke>> = Vec::new();
    let mut start: usize = 0;
    assert(w.subrange(0, 0) =~= Seq::<u16>::empty());
    while start < n
        invariant
            wide@ == w,
            n == w.len(),
            w == wide_text(text@),
            start <= n,
            start == n || start % 32 == 0,
            batches@.len() == (start + 31) / 32,
            forall|b: int|
                0 <= b < batches@.len() ==> #[trigger] batches@[b]@ == strokes(batch_units(w, b)),
            flatten(batches@.map_values(|v: Vec<KeyStroke>| v@)) == strokes(w.subrange(0, start as int)),
        decreases n - start,
    {
        let end = if n - start >= 32 {
            start + 32
        } else {
            n
        };
        let mut batch: Vec<KeyStroke> = Vec::new();
        let mut k = start;
        assert(w.subrange(start as int, start as int) =~= Seq::<u16>::empty());
        while k < end
            invariant
                wide@ == w,
                start <= k <= end <= n,
                n == w.len(),
                batch@ == strokes(w.subrange(start as int, k as int)),
            decreases end - k,
        {
            let c = wide[k];
            assert(w.subrange(start as int, k + 1).drop_last() =~= w.subrange(start as int, k as int));
            if c != 0 {
                batch.push(KeyStroke { unit: c, key_up: false });
                batch.push(KeyStroke { unit: c, key_up: true });
            }
            k = k + 1;
        }
        let ghost old_batches = batches@;
        batches.push(batch);
        proof {
            let b = start as int / 32;
            assert(32 * b == start);
            assert(batch_units(w, b) =~= w.subrange(start as int, end as int));
            assert(batches@.map_values(|v: Vec<KeyStroke>| v@).drop_last() =~= old_batches.map_values(
                |v: Vec<KeyStroke>| v@,
            ));
            lemma_strokes_append(w.subrange(0, start as int), w.subrange(start as int, end as int));
            assert(w.subrange(0, start as int) + w.subrange(start as int, end as int) =~= w.subrange(
                0,
                end as int,
            ));
        }
        start = end;
    }
    proof {
        assert(w.subrange(0, n as int) =~= w);
        lemma_strokes_append(utf16(text@), seq![0u16]);
        assert(utf16(text@) + seq![0u16] =~= w);
        assert(strokes(seq![0u16]) =~= Seq::<KeyStroke>::empty()) by {
            assert(seq![0u16].drop_last() =~= Seq::<u16>::empty());
            assert(seq![0u16].last() == 0);
            assert(strokes(Seq::<u16>::empty()) == Seq::<KeyStroke>::empty());
        }
        assert(strokes(utf16(text@)) + Seq::<KeyStroke>::empty() =~= strokes(utf16(text@)));
    }
    batches
}

/// The units are cut into runs of 32 in order: every batch but the last
/// holds exactly 32 units, the last holds the 1 to 32 that remain, and unit
/// `j` of batch `b` is unit `32 * b + j` of the whole.
pub proof fn lemma_batches_of_32(wide: Seq<u16>)
    requires
        wide.len() > 0,
    ensures
        batch_count(wide.len() as int) >= 1,
        32 * (batch_count(wide.len() as int) - 1) < wide.len() <= 32 * batch_count(wide.len() as int),
        forall|b: int|
            0 <= b < batch_count(wide.len() as int) - 1 ==> (#[trigger] batch_units(wide, b)).len() == 32,
        batch_units(wide, batch_count(wide.len() as int) - 1).len() == wide.len() - 32 * (batch_count(
            wide.len() as int,
        ) - 1),
        forall|b: int, j: int|
            0 <= b < batch_count(wide.len() as int) && 0 <= j < batch_units(wide, b).len() ==> #[trigger] batch_units(
                wide,
                b,
            )[j] == wide[32 * b + j],
{
    let n = wide.len() as int;
    let c = batch_count(n);
    assert(c >= 1 && 32 * (c - 1) < n <= 32 * c) by (nonlinear_arith)
        requires
            n > 0,
            c == (n + 31) / 32,
    ;
    assert forall|b: int| 0 <= b < c - 1 implies (#[trigger] batch_units(wide, b)).len() == 32 by {
        assert(32 * b + 32 <= 32 * (c - 1)) by (nonlinear_arith)
            requires
                b < c - 1,
        ;
    }
    assert forall|b: int, j: int|
        0 <= b < c && 0 <= j < batch_units(wide, b).len() implies #[trigger] batch_units(wide, b)[j] == wide[32
            * b + j] by {
        assert(32 * b <= 32 * (c - 1)) by (nonlinear_arith)
            requires
                b < c,
        ;
    }
}

/// The key press carrying `u`.
pub open spec fn press(u: u16) -> KeyStroke {
    KeyStroke { unit: u, key_up: false }
}

/// The key release carrying `u`.
pub open spec fn release(u: u16) -> KeyStroke {
    KeyStroke { unit: u, key_up: true }
}

/// One code unit is typed by a press and a release carrying it, unless it
/// is 0, which types nothing.
pub proof fn lemma_strokes_one_unit(u: u16)
    ensures
        u != 0 ==> strokes(seq![u]) == seq![
            (KeyStroke { unit: u, key_up: false }),
            (KeyStroke { unit: u, key_up: true }),
        ],
        u == 0 ==> strokes(seq![u]) == Seq::<KeyStroke>::empty(),
{
    assert(seq![u].drop_last() =~= Seq::<u16>::empty());
    assert(strokes(Seq::<u16>::empty()) == Seq::<KeyStroke>::empty());
    assert(Seq::<KeyStroke>::empty() + seq![
        KeyStroke { unit: u, key_up: false },
        KeyStroke { unit: u, key_up: true },
    ] =~= seq![KeyStroke { unit: u, key_up: false }, KeyStroke { unit: u, key_up: true }]);
}

/// The strokes of a run of units: stroke `2 * j` presses and stroke
/// `2 * j + 1` releases the `j`-th non-zero unit, and there are two strokes
/// per non-zero unit.
pub proof fn lemma_strokes_press_release(units: Seq<u16>)
    requires
        forall|i: int| 0 <= i < units.len() ==> #[trigger] units[i] != 0,
    ensures
        strokes(units).len() == 2 * units.len(),
        forall|j: int| 0 <= j < units.len() ==> #[trigger] strokes(units)[2 * j] == press(units[j]),
        forall|j: int| 0 <= j < units.len() ==> #[trigger] strokes(units)[2 * j + 1] == release(units[j]),
    decreases units.len(),
{
    if units.len() > 0 {
        let init = units.drop_last();
        assert forall|i: int| 0 <= i < init.len() implies #[trigger] init[i] != 0 by {
            assert(init[i] == units[i]);
        }
        lemma_strokes_press_release(init);
        lemma_strokes_append(init, seq![units.last()]);
        lemma_strokes_one_unit(units.last());
        assert(init + seq![units.last()] =~= units);
        let tail = seq![press(units.last()), release(units.last())];
        assert(strokes(units) == strokes(init) + tail);
        assert forall|j: int| 0 <= j < units.len() implies #[trigger] strokes(units)[2 * j] == press(
            units[j],
        ) by {
            if j < init.len() {
                assert(init[j] == units[j]);
                assert(strokes(units)[2 * j] == strokes(init)[2 * j]);
            } else {
                assert(strokes(units)[2 * j] == tail[0]);
            }
        }
        assert forall|j: int| 0 <= j < units.len() implies #[trigger] strokes(units)[2 * j + 1]
            == release(units[j]) by {
            if j < init.len() {
                assert(init[j] == units[j]);
                assert(strokes(units)[2 * j + 1] == strokes(init)[2 * j + 1]);
            } else {
                assert(strokes(units)[2 * j + 1] == tail[1]);
            }
        }
    }
}

/// The batches laid end to end: two runs of batches lay out as the first
/// run followed by the second, and a single batch lays out as itself.
pub proof fn lemma_flatten_append(batches: Seq<Seq<KeyStroke>>, more: Seq<Seq<KeyStroke>>)
    ensures
        flatten(batches + more) == flatten(batches) + flatten(more),
        flatten(seq![Seq::<KeyStroke>::empty()]) == Seq::<KeyStroke>::empty(),
        forall|x: Seq<KeyStroke>| #[trigger] flatten(seq![x]) == x,
    decreases more.len(),
{
    assert forall|x: Seq<KeyStroke>| #[trigger] flatten(seq![x]) == x by {
        let one = seq![x];
        assert(one.drop_last() =~= Seq::<Seq<KeyStroke>>::empty());
        assert(one.last() == x);
        assert(flatten(one) == flatten(one.drop_last()) + x);
        assert(Seq::<KeyStroke>::empty() + x =~= x);
    }
    assert(seq![Seq::<KeyStroke>::empty()].drop_last() =~= Seq::<Seq<KeyStroke>>::empty());
    assert(flatten(Seq::<Seq<KeyStroke>>::empty()) == Seq::<KeyStroke>::empty());
    assert(flatten(seq![Seq::<KeyStroke>::empty()]) =~= Seq::<KeyStroke>::empty());
    if more.len() == 0 {
        assert(batches + more =~= batches);
        assert(flatten(batches) + flatten(more) =~= flatten(batches));
    } else {
        lemma_flatten_append(batches, more.drop_last());
        assert((batches + more).drop_last() =~= batches + more.drop_last());
        assert(flatten(batches + more) =~= flatten(batches) + flatten(more));
    }
}

/// UTF-16 of a text is the UTF-16 of its characters one after another.
pub proof fn lemma_utf16_append(a: Seq<char>, b: Seq<char>)
    ensures
        utf16(a + b) == utf16(a) + utf16(b),
    decreases b.len(),
{
    if b.len() == 0 {
        assert(a + b =~= a);
        assert(utf16(a) + utf16(b) =~= utf16(a));
    } else {
        lemma_utf16_append(a, b.drop_last());
        assert((a + b).drop_last() =~= a + b.drop_last());
        assert(utf16(a + b) =~= utf16(a) + utf16(b));
    }
}

/// The empty text has no code units, and a text of one character has that
/// character's units.
pub proof fn lemma_utf16_single(c: char)
    ensures
        utf16(Seq::<char>::empty()) == Seq::<u16>::empty(),
        utf16(seq![c]) == utf16_char(c),
{
    let one = seq![c];
    assert(one.drop_last() =~= Seq::<char>::empty());
    assert(one.last() == c);
    assert(utf16(one) == utf16(one.drop_last()) + utf16_char(c));
    assert(Seq::<u16>::empty() + utf16_char(c) =~= utf16_char(c));
}

/// A text whose characters all lie below U+10000 has one code unit per
/// character, equal to its code point.
pub proof fn lemma_utf16_bmp_text(text: Seq<char>)
    requires
        forall|i: int| 0 <= i < text.len() ==> (#[trigger] text[i] as u32) < 0x10000,
    ensures
        utf16(text).len() == text.len(),
        forall|i: int| 0 <= i < text.len() ==> #[trigger] utf16(text)[i] as u32 == text[i] as u32,
    decreases text.len(),
{
    if text.len() > 0 {
        let init = text.drop_last();
        assert forall|i: int| 0 <= i < init.len() implies (#[trigger] init[i] as u32) < 0x10000 by {
            assert(init[i] == text[i]);
        }
        lemma_utf16_bmp_text(init);
        lemma_utf16_char_encodes(text.last());
        let w = utf16(text);
        assert(w == utf16(init) + utf16_char(text.last()));
        assert forall|i: int| 0 <= i < text.len() implies #[trigger] w[i] as u32 == text[i] as u32 by {
            if i < init.len() {
                assert(w[i] == utf16(init)[i]);
                assert(init[i] == text[i]);
            } else {
                assert(w[i] == utf16_char(text.last())[0]);
            }
        }
    }
}

/// A character below U+10000 is the one code unit equal to its code point;
/// any other is a high surrogate (U+D800 to U+DBFF) and a low surrogate
/// (U+DC00 to U+DFFF) from which its code point is
/// `0x10000 + (high - 0xD800) * 1024 + (low - 0xDC00)`. A unit is 0 only for
/// the character U+0000.
pub proof fn lemma_utf16_char_encodes(c: char)
    ensures
        (c as u32) < 0x10000 ==> utf16_char(c).len() == 1 && utf16_char(c)[0] as u32 == c as u32,
        (c as u32) >= 0x10000 ==> {
            &&& utf16_char(c).len() == 2
            &&& 0xD800 <= utf16_char(c)[0] <= 0xDBFF
            &&& 0xDC00 <= utf16_char(c)[1] <= 0xDFFF
            &&& 0x10000 + (utf16_char(c)[0] - 0xD800) * 1024 + (utf16_char(c)[1] - 0xDC00) == c as u32
        },
        forall|i: int| 0 <= i < utf16_char(c).len() ==> (#[trigger] utf16_char(c)[i] == 0 <==> c as u32
            == 0),
{
    let u = c as u32;
    vstd::utf8::char_is_scalar(c);
    if u >= 0x10000 {
        let v = u - 0x10000;
        assert(v / 1024 < 1024 && v % 1024 < 1024 && 1024 * (v / 1024) + v % 1024 == v) by (
        nonlinear_arith)
            requires
                0 <= v <= 0x10ffff - 0x10000,
        ;
    }
}

/// No code unit of a text is 0 when the text holds no U+0000.
proof fn lemma_utf16_nonzero(text: Seq<char>)
    requires
        forall|i: int| 0 <= i < text.len() ==> #[trigger] (text[i] as u32) != 0,
    ensures
        forall|k: int| 0 <= k < utf16(text).len() ==> #[trigger] utf16(text)[k] != 0,
    decreases text.len(),
{
    if text.len() > 0 {
        let init = text.drop_last();
        assert forall|i: int| 0 <= i < init.len() implies #[trigger] (init[i] as u32) != 0 by {
            assert(init[i] == text[i]);
        }
        lemma_utf16_nonzero(init);
        lemma_utf16_char_encodes(text.last());
        let w = utf16(text);
        assert(w == utf16(init) + utf16_char(text.last()));
        assert forall|k: int| 0 <= k < w.len() implies #[trigger] w[k] != 0 by {
            if k >= utf16(init).len() {
                assert(w[k] == utf16_char(text.last())[k - utf16(init).len()]);
            } else {
                assert(w[k] == utf16(init)[k]);
            }
        }
    }
}

/// Typing a text without U+0000 presses and releases each of its UTF-16
/// code units in order: the strokes number two per unit, stroke `2 * j`
/// presses unit `j` and stroke `2 * j + 1` releases it.
pub proof fn lemma_typed_text(text: Seq<char>)
    requires
        forall|i: int| 0 <= i < text.len() ==> #[trigger] (text[i] as u32) != 0,
    ensures
        strokes(utf16(text)).len() == 2 * utf16(text).len(),
        forall|j: int|
            0 <= j < utf16(text).len() ==> #[trigger] strokes(utf16(text))[2 * j] == press(utf16(text)[j]),
        forall|j: int|
            0 <= j < utf16(text).len() ==> #[trigger] strokes(utf16(text))[2 * j + 1] == release(
                utf16(text)[j],
            ),
{
    lemma_utf16_nonzero(text);
    lemma_strokes_press_release(utf16(text));
}

} // verus!
