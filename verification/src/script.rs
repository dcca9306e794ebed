//! The diary's handwriting: a Hershey single-stroke script font, read from
//! its JHF text into pen paths in font units.
//!
//! JHF format: each record is a 5-character glyph id, a 3-character vertex
//! count, then that many coordinate pairs, each character encoding
//! `char - 'R'`; the first pair holds the glyph's left and right bounds and
//! the pair `" R"` lifts the pen. Records may wrap across lines, so the text
//! is read with its line breaks removed.

use vstd::prelude::*;
use crate::text::{
    from_chars, trim, trim_bounds, parse_unsigned, parse_unsigned_exec, push_char, to_chars,
};

verus! {

#[derive(Debug, Clone, Default)]
pub struct Glyph {
    /// Left and right bounds, in font units relative to the glyph centre.
    pub left: i32,
    pub right: i32,
    /// Pen paths in font units, y down.
    pub polylines: Vec<Vec<(i32, i32)>>,
}

/// The content of a glyph.
pub struct GlyphModel {
    pub left: i32,
    pub right: i32,
    pub polylines: Seq<Seq<(i32, i32)>>,
}

impl View for Glyph {
    type V = GlyphModel;

    open spec fn view(&self) -> GlyphModel {
        GlyphModel {
            left: self.left,
            right: self.right,
            polylines: self.polylines@.map_values(|p: Vec<(i32, i32)>| p@),
        }
    }
}

impl Glyph {
    /// The horizontal advance of the glyph in font units.
    pub fn advance(&self) -> (a: i64)
        ensures
            a == self.right - self.left,
    {
        self.right as i64 - self.left as i64
    }
}

/// Why a font text could not be read.
#[derive(Debug)]
pub enum FontError {
    /// The vertex count of the record at `offset` is not a number.
    BadCount { offset: usize, count: String },
    /// The record whose coordinates start at `offset` runs past the end.
    Truncated { offset: usize },
    /// Fewer glyphs than the 96 printable ASCII characters.
    TooFewGlyphs { found: usize },
}

pub enum FontErrorModel {
    BadCount { offset: nat, count: Seq<char> },
    Truncated { offset: nat },
    TooFewGlyphs { found: nat },
}

pub open spec fn font_error_view(e: FontError) -> FontErrorModel {
    match e {
        FontError::BadCount { offset, count } => FontErrorModel::BadCount {
            offset: offset as nat,
            count: count@,
        },
        FontError::Truncated { offset } => FontErrorModel::Truncated { offset: offset as nat },
        FontError::TooFewGlyphs { found } => FontErrorModel::TooFewGlyphs { found: found as nat },
    }
}

/// The text with every `'\n'` and `'\r'` removed.
pub open spec fn strip_newlines(s: Seq<char>) -> Seq<char>
    decreases s.len(),
{
    if s.len() == 0 {
        s
    } else if s.last() == '\n' || s.last() == '\r' {
        strip_newlines(s.drop_last())
    } else {
        strip_newlines(s.drop_last()).push(s.last())
    }
}

/// A coordinate character's value in font units.
pub open spec fn unit(c: char) -> i32 {
    ((c as u32) - 82) as i32
}

pub open spec fn with_stroke(g: GlyphModel, cur: Seq<(i32, i32)>) -> GlyphModel {
    if cur.len() > 1 {
        GlyphModel { polylines: g.polylines.push(cur), ..g }
    } else {
        g
    }
}

/// Reads the coordinate pairs of a record from pair `p` on, with the glyph
/// so far and the path being drawn. Paths of a single point are dropped.
pub open spec fn glyph_scan(rec: Seq<char>, p: nat, g: GlyphModel, cur: Seq<(i32, i32)>) -> GlyphModel
    decreases rec.len() - 2 * p,
{
    if 2 * p + 2 > rec.len() {
        with_stroke(g, cur)
    } else {
        let cx = rec[2 * p as int];
        let cy = rec[2 * p + 1 as int];
        if p == 0 {
            glyph_scan(rec, p + 1, GlyphModel { left: unit(cx), right: unit(cy), ..g }, cur)
        } else if cx == ' ' && cy == 'R' {
            glyph_scan(rec, p + 1, with_stroke(g, cur), Seq::empty())
        } else {
            glyph_scan(rec, p + 1, g, cur.push((unit(cx), unit(cy))))
        }
    }
}

pub open spec fn empty_glyph() -> GlyphModel {
    GlyphModel { left: 0, right: 0, polylines: Seq::empty() }
}

/// The glyph of a record's coordinate characters.
pub open spec fn glyph_of(rec: Seq<char>) -> GlyphModel {
    glyph_scan(rec, 0, empty_glyph(), Seq::empty())
}

/// Reads the records from offset `i` on, after the glyphs `acc`.
pub open spec fn parse_from(chars: Seq<char>, i: nat, acc: Seq<GlyphModel>) -> Result<
    Seq<GlyphModel>,
    FontErrorModel,
>
    decreases chars.len() - i,
{
    if i + 8 > chars.len() {
        if acc.len() < 96 {
            Err(FontErrorModel::TooFewGlyphs { found: acc.len() })
        } else {
            Ok(acc)
        }
    } else {
        let field = chars.subrange(i + 5 as int, i + 8 as int);
        match parse_unsigned(trim(field), usize::MAX as nat) {
            None => Err(FontErrorModel::BadCount { offset: i, count: field }),
            Some(n) => if i + 8 + 2 * n > chars.len() {
                Err(FontErrorModel::Truncated { offset: i + 8 })
            } else {
                parse_from(
                    chars,
                    i + 8 + 2 * n,
                    acc.push(glyph_of(chars.subrange(i + 8 as int, i + 8 + 2 * n as int))),
                )
            },
        }
    }
}

/// The glyphs of a JHF font text, or why it cannot be read.
pub open spec fn parse_font(data: Seq<char>) -> Result<Seq<GlyphModel>, FontErrorModel> {
    parse_from(strip_newlines(data), 0, Seq::empty())
}

pub open spec fn glyphs_view(gs: Seq<Glyph>) -> Seq<GlyphModel> {
    gs.map_values(|g: Glyph| g@)
}

/// A coordinate character's value in font units.
fn unit_exec(c: char) -> (v: i32)
    ensures
        v == unit(c),
{
    let u: u32 = c as u32;
    assert(u <= 0x10FFFF);
    let w: i32 = u as i32;
    w - 82
}

fn strip_newlines_exec(data: &str) -> (v: Vec<char>)
    ensures
        v@ == strip_newlines(data@),
{
    let all = to_chars(data);
    let mut v: Vec<char> = Vec::new();
    let n = all.len();
    let mut i: usize = 0;
    assert(all@.take(0) =~= Seq::<char>::empty());
    while i < n
        invariant
            i <= n,
            n == all@.len(),
            v@ == strip_newlines(all@.take(i as int)),
        decreases n - i,
    {
        let c = all[i];
        assert(all@.take(i + 1).drop_last() =~= all@.take(i as int));
        if c != '\n' && c != '\r' {
            v.push(c);
        }
        i = i + 1;
    }
    assert(all@.take(n as int) =~= all@);
    v
}

/// Reads one record's coordinates `chars[start .. start + 2 * count]`.
fn read_glyph(chars: &Vec<char>, start: usize, count: usize) -> (g: Glyph)
    requires
        start + 2 * count <= chars@.len(),
    ensures
        g@ == glyph_of(chars@.subrange(start as int, start + 2 * count)),
{
    let ghost rec = chars@.subrange(start as int, start + 2 * count);
    let mut glyph = Glyph { left: 0, right: 0, polylines: Vec::new() };
    let mut current: Vec<(i32, i32)> = Vec::new();
    assert(glyph@.polylines =~= Seq::<Seq<(i32, i32)>>::empty());
    let total = chars.len();
    let mut p: usize = 0;
    while p < count
        invariant
            p <= count,
            total == chars@.len(),
            start + 2 * count <= chars@.len(),
            rec == chars@.subrange(start as int, start + 2 * count),
            glyph_of(rec) == glyph_scan(rec, p as nat, glyph@, current@),
        decreases count - p,
    {
        let cx = chars[start + 2 * p];
        let cy = chars[start + 2 * p + 1];
        assert(rec[2 * p as int] == cx && rec[2 * p + 1] == cy);
        let ghost g0 = glyph@;
        if p == 0 {
            glyph.left = unit_exec(cx);
            glyph.right = unit_exec(cy);
        } else if cx == ' ' && cy == 'R' {
            if current.len() > 1 {
                let mut done: Vec<(i32, i32)> = Vec::new();
                std::mem::swap(&mut done, &mut current);
                let ghost d = done@;
                glyph.polylines.push(done);
                assert(glyph@.polylines =~= g0.polylines.push(d));
            } else {
                current.clear();
            }
            assert(current@ =~= Seq::<(i32, i32)>::empty());
        } else {
            current.push((unit_exec(cx), unit_exec(cy)));
        }
        p = p + 1;
    }
    let ghost g0 = glyph@;
    if current.len() > 1 {
        let ghost d = current@;
        glyph.polylines.push(current);
        assert(glyph@.polylines =~= g0.polylines.push(d));
    }
    glyph
}

/// Reads the glyphs of a JHF font text, in record order.
pub fn parse_font_exec(data: &str) -> (r: Result<Vec<Glyph>, FontError>)
    ensures
        match r {
            Ok(gs) => parse_font(data@) == Ok::<Seq<GlyphModel>, FontErrorModel>(glyphs_view(gs@)),
            Err(e) => parse_font(data@) == Err::<Seq<GlyphModel>, FontErrorModel>(
                font_error_view(e),
            ),
        },
{
    let chars = strip_newlines_exec(data);
    let ghost cs = chars@;
    let n = chars.len();
    let mut glyphs: Vec<Glyph> = Vec::new();
    let mut i: usize = 0;
    assert(glyphs_view(glyphs@) =~= Seq::<GlyphModel>::empty());
    while i <= n && n - i >= 8
        invariant
            i <= n,
            n == cs.len(),
            cs == chars@,
            cs == strip_newlines(data@),
            parse_font(data@) == parse_from(cs, i as nat, glyphs_view(glyphs@)),
        decreases n - i,
    {
        let mut field: Vec<char> = Vec::new();
        field.push(chars[i + 5]);
        field.push(chars[i + 6]);
        field.push(chars[i + 7]);
        assert(field@ =~= cs.subrange(i + 5, i + 8));
        let (a, b) = trim_bounds(&field);
        let mut body: Vec<char> = Vec::new();
        let mut q: usize = a;
        while q < b
            invariant
                a <= q <= b,
                b <= field@.len(),
                body@ == field@.subrange(a as int, q as int),
            decreases b - q,
        {
            body.push(field[q]);
            assert(field@.subrange(a as int, q + 1) =~= field@.subrange(a as int, q as int).push(
                field@[q as int],
            ));
            q = q + 1;
        }
        let count = match parse_unsigned_exec(&body, usize::MAX as u128) {
            Some(c) => c as usize,
            None => {
                return Err(FontError::BadCount { offset: i, count: from_chars(&field) });
            },
        };
        i = i + 8;
        if count > (n - i) / 2 {
            return Err(FontError::Truncated { offset: i });
        }
        let g = read_glyph(&chars, i, count);
        let ghost before = glyphs_view(glyphs@);
        glyphs.push(g);
        assert(glyphs_view(glyphs@) =~= before.push(g@));
        i = i + 2 * count;
    }
    if glyphs.len() < 96 {
        return Err(FontError::TooFewGlyphs { found: glyphs.len() });
    }
    Ok(glyphs)
}

/// A loaded script font: 96 glyphs or more, one per printable ASCII
/// character from `' '` on.
#[derive(Debug)]
pub struct Script {
    glyphs: Vec<Glyph>,
}

/// The glyph slot of a character: its code minus 32 when printable ASCII,
/// else the slot of `'?'`.
pub open spec fn glyph_index(c: char) -> int {
    if 32 <= (c as u32) && (c as u32) < 128 {
        (c as u32) - 32
    } else {
        '?' as u32 - 32
    }
}

impl Script {
    #[verifier::type_invariant]
    spec fn holds_ascii(self) -> bool {
        self.glyphs@.len() >= 96
    }

    /// The glyphs, in record order.
    pub closed spec fn glyphs(self) -> Seq<GlyphModel> {
        glyphs_view(self.glyphs@)
    }

    /// Reads a script font from its JHF text.
    pub fn load(font_data: &str) -> (r: Result<Self, FontError>)
        ensures
            match r {
                Ok(s) => parse_font(font_data@) == Ok::<Seq<GlyphModel>, FontErrorModel>(
                    s.glyphs(),
                ),
                Err(e) => parse_font(font_data@) == Err::<Seq<GlyphModel>, FontErrorModel>(
                    font_error_view(e),
                ),
            },
    {
        match parse_font_exec(font_data) {
            Ok(glyphs) => {
                proof {
                    lemma_parsed_font_is_full(strip_newlines(font_data@), 0, Seq::empty());
                }
                Ok(Script { glyphs })
            },
            Err(e) => Err(e),
        }
    }

    /// The glyph that writes `c`; characters outside printable ASCII are
    /// written as `'?'`.
    pub fn glyph(&self, c: char) -> (g: &Glyph)
        ensures
            self.glyphs().len() >= 96,
            g@ == self.glyphs()[glyph_index(c)],
            32 <= (c as u32) < 128 ==> g@ == self.glyphs()[(c as u32) - 32],
            !(32 <= (c as u32) < 128) ==> g@ == self.glyphs()[31],
    {
        proof {
            use_type_invariant(self);
        }
        let code: u32 = c as u32;
        if 32 <= code && code < 128 {
            &self.glyphs[(code - 32) as usize]
        } else {
            &self.glyphs[31]
        }
    }
}

/// Law: a printable ASCII character is written with the glyph of record
/// number `code - 32`, so each character has a slot of its own; every other
/// character shares the slot of `'?'`, record 31.
pub proof fn law_glyph_slot(c: char, d: char)
    ensures
        32 <= (c as u32) < 128 ==> glyph_index(c) == (c as u32) - 32,
        !(32 <= (c as u32) < 128) ==> glyph_index(c) == 31,
        0 <= glyph_index(c) < 96,
        32 <= (c as u32) < 128 && 32 <= (d as u32) < 128 && c != d ==> glyph_index(c)
            != glyph_index(d),
{
}

/// A font text that reads without error holds at least 96 glyphs.
pub proof fn lemma_parsed_font_is_full(chars: Seq<char>, i: nat, acc: Seq<GlyphModel>)
    ensures
        parse_from(chars, i, acc) matches Ok(gs) ==> gs.len() >= 96,
    decreases chars.len() - i,
{
    if i + 8 <= chars.len() {
        let field = chars.subrange(i + 5 as int, i + 8 as int);
        match parse_unsigned(trim(field), usize::MAX as nat) {
            None => {},
            Some(n) => {
                if i + 8 + 2 * n <= chars.len() {
                    lemma_parsed_font_is_full(
                        chars,
                        i + 8 + 2 * n,
                        acc.push(glyph_of(chars.subrange(i + 8 as int, i + 8 + 2 * n as int))),
                    );
                }
            },
        }
    }
}

} // verus!

verus! {

/// What the quill writes for a character: accents and typographic
/// punctuation folded to plain ASCII, ASCII unchanged, anything else `'?'`.
pub open spec fn fold_char(c: char) -> Seq<char> {
    if c == '\u{e1}' || c == '\u{e0}' || c == '\u{e2}' || c == '\u{e4}' || c == '\u{e3}' || c == '\u{e5}' {
        seq!['a']
    } else if c == '\u{c1}' || c == '\u{c0}' || c == '\u{c2}' || c == '\u{c4}' || c == '\u{c3}' || c == '\u{c5}' {
        seq!['A']
    } else if c == '\u{e9}' || c == '\u{e8}' || c == '\u{ea}' || c == '\u{eb}' {
        seq!['e']
    } else if c == '\u{c9}' || c == '\u{c8}' || c == '\u{ca}' || c == '\u{cb}' {
        seq!['E']
    } else if c == '\u{ed}' || c == '\u{ec}' || c == '\u{ee}' || c == '\u{ef}' {
        seq!['i']
    } else if c == '\u{cd}' || c == '\u{cc}' || c == '\u{ce}' || c == '\u{cf}' {
        seq!['I']
    } else if c == '\u{f3}' || c == '\u{f2}' || c == '\u{f4}' || c == '\u{f6}' || c == '\u{f5}' || c == '\u{f8}' {
        seq!['o']
    } else if c == '\u{d3}' || c == '\u{d2}' || c == '\u{d4}' || c == '\u{d6}' || c == '\u{d5}' || c == '\u{d8}' {
        seq!['O']
    } else if c == '\u{fa}' || c == '\u{f9}' || c == '\u{fb}' || c == '\u{fc}' {
        seq!['u']
    } else if c == '\u{da}' || c == '\u{d9}' || c == '\u{db}' || c == '\u{dc}' {
        seq!['U']
    } else if c == '\u{fd}' || c == '\u{ff}' {
        seq!['y']
    } else if c == '\u{e7}' {
        seq!['c']
    } else if c == '\u{c7}' {
        seq!['C']
    } else if c == '\u{f1}' {
        seq!['n']
    } else if c == '\u{d1}' {
        seq!['N']
    } else if c == '\u{df}' {
        seq!['s', 's']
    } else if c == '\u{2018}' || c == '\u{2019}' {
        seq!['\'']
    } else if c == '\u{201c}' || c == '\u{201d}' {
        seq!['"']
    } else if c == '\u{2013}' || c == '\u{2014}' {
        seq!['-']
    } else if c == '\u{2026}' {
        seq!['.', '.', '.']
    } else if (c as u32) < 128 {
        seq![c]
    } else {
        seq!['?']
    }
}

/// A text folded to ASCII, character by character.
pub open spec fn fold_ascii(s: Seq<char>) -> Seq<char>
    decreases s.len(),
{
    if s.len() == 0 {
        Seq::empty()
    } else {
        fold_ascii(s.drop_last()) + fold_char(s.last())
    }
}

pub open spec fn is_ascii_text(s: Seq<char>) -> bool {
    forall|i: int| 0 <= i < s.len() ==> (#[trigger] s[i] as u32) < 128
}

fn push_folded(out: &mut String, c: char)
    ensures
        final(out)@ == old(out)@ + fold_char(c),
{
    if c == '\u{e1}' || c == '\u{e0}' || c == '\u{e2}' || c == '\u{e4}' || c == '\u{e3}' || c == '\u{e5}' {
        push_char(out, 'a');
    } else if c == '\u{c1}' || c == '\u{c0}' || c == '\u{c2}' || c == '\u{c4}' || c == '\u{c3}' || c == '\u{c5}' {
        push_char(out, 'A');
    } else if c == '\u{e9}' || c == '\u{e8}' || c == '\u{ea}' || c == '\u{eb}' {
        push_char(out, 'e');
    } else if c == '\u{c9}' || c == '\u{c8}' || c == '\u{ca}' || c == '\u{cb}' {
        push_char(out, 'E');
    } else if c == '\u{ed}' || c == '\u{ec}' || c == '\u{ee}' || c == '\u{ef}' {
        push_char(out, 'i');
    } else if c == '\u{cd}' || c == '\u{cc}' || c == '\u{ce}' || c == '\u{cf}' {
        push_char(out, 'I');
    } else if c == '\u{f3}' || c == '\u{f2}' || c == '\u{f4}' || c == '\u{f6}' || c == '\u{f5}' || c == '\u{f8}' {
        push_char(out, 'o');
    } else if c == '\u{d3}' || c == '\u{d2}' || c == '\u{d4}' || c == '\u{d6}' || c == '\u{d5}' || c == '\u{d8}' {
        push_char(out, 'O');
    } else if c == '\u{fa}' || c == '\u{f9}' || c == '\u{fb}' || c == '\u{fc}' {
        push_char(out, 'u');
    } else if c == '\u{da}' || c == '\u{d9}' || c == '\u{db}' || c == '\u{dc}' {
        push_char(out, 'U');
    } else if c == '\u{fd}' || c == '\u{ff}' {
        push_char(out, 'y');
    } else if c == '\u{e7}' {
        push_char(out, 'c');
    } else if c == '\u{c7}' {
        push_char(out, 'C');
    } else if c == '\u{f1}' {
        push_char(out, 'n');
    } else if c == '\u{d1}' {
        push_char(out, 'N');
    } else if c == '\u{df}' {
        push_char(out, 's');
        push_char(out, 's');
    } else if c == '\u{2018}' || c == '\u{2019}' {
        push_char(out, '\'');
    } else if c == '\u{201c}' || c == '\u{201d}' {
        push_char(out, '"');
    } else if c == '\u{2013}' || c == '\u{2014}' {
        push_char(out, '-');
    } else if c == '\u{2026}' {
        push_char(out, '.');
        push_char(out, '.');
        push_char(out, '.');
    } else if (c as u32) < 128 {
        push_char(out, c);
    } else {
        push_char(out, '?');
    }
    assert(final(out)@ =~= old(out)@ + fold_char(c));
}

/// The quill only knows ASCII: folds accents and typographic punctuation
/// so Dutch (and friends) still render.
pub fn fold_to_ascii(text: &str) -> (out: String)
    ensures
        out@ == fold_ascii(text@),
{
    let mut out = String::new();
    for c in it: text.chars()
        invariant
            it.seq() == text@,
            out@ == fold_ascii(it.seq().take(it.index() as int)),
    {
        proof {
            let k = it.index() as int;
            assert(it.seq().take(k + 1).drop_last() =~= it.seq().take(k));
            assert(it.seq().take(k + 1).last() == c);
        }
        push_folded(&mut out, c);
    }
    proof {
        assert(text@.take(text@.len() as int) =~= text@);
    }
    out
}

/// Every character folds to ASCII.
pub proof fn lemma_fold_char_ascii(c: char)
    ensures
        is_ascii_text(fold_char(c)),
        (c as u32) < 128 ==> fold_char(c) == seq![c],
{
}

/// Law: folded text is plain ASCII.
pub proof fn law_fold_is_ascii(s: Seq<char>)
    ensures
        is_ascii_text(fold_ascii(s)),
    decreases s.len(),
{
    if s.len() > 0 {
        law_fold_is_ascii(s.drop_last());
        lemma_fold_char_ascii(s.last());
        let a = fold_ascii(s.drop_last());
        let b = fold_char(s.last());
        assert forall|i: int| 0 <= i < (a + b).len() implies ((#[trigger] (a + b)[i]) as u32) < 128 by {
            if i < a.len() {
                assert((a + b)[i] == a[i]);
            } else {
                assert((a + b)[i] == b[i - a.len()]);
            }
        }
    }
}

/// Plain ASCII text is left as it is.
pub proof fn lemma_fold_keeps_ascii(s: Seq<char>)
    requires
        is_ascii_text(s),
    ensures
        fold_ascii(s) == s,
    decreases s.len(),
{
    if s.len() > 0 {
        assert(is_ascii_text(s.drop_last())) by {
            assert forall|i: int| 0 <= i < s.drop_last().len() implies ((
            #[trigger] s.drop_last()[i]) as u32) < 128 by {
                assert(s.drop_last()[i] == s[i]);
            }
        }
        lemma_fold_keeps_ascii(s.drop_last());
        lemma_fold_char_ascii(s.last());
        assert(s.drop_last().push(s.last()) =~= s);
    }
}

/// Law: folding twice is folding once.
pub proof fn law_fold_idempotent(s: Seq<char>)
    ensures
        fold_ascii(fold_ascii(s)) == fold_ascii(s),
{
    law_fold_is_ascii(s);
    lemma_fold_keeps_ascii(fold_ascii(s));
}

/// Law: the accented Latin-1 letters fold to their base letter, in the same
/// case, by their place in the Latin-1 block: a grave, acute, circumflex,
/// tilde, diaeresis or ring over a vowel (and the slashed o) is dropped, the
/// cedilla and the tilde leave c and n, and sharp s becomes "ss".
pub proof fn law_fold_latin1_letters(c: char)
    ensures
        0xE0 <= (c as u32) <= 0xE5 ==> fold_char(c) == seq!['a'],
        0xC0 <= (c as u32) <= 0xC5 ==> fold_char(c) == seq!['A'],
        0xE8 <= (c as u32) <= 0xEB ==> fold_char(c) == seq!['e'],
        0xC8 <= (c as u32) <= 0xCB ==> fold_char(c) == seq!['E'],
        0xEC <= (c as u32) <= 0xEF ==> fold_char(c) == seq!['i'],
        0xCC <= (c as u32) <= 0xCF ==> fold_char(c) == seq!['I'],
        (0xF2 <= (c as u32) <= 0xF6 || (c as u32) == 0xF8) ==> fold_char(c) == seq!['o'],
        (0xD2 <= (c as u32) <= 0xD6 || (c as u32) == 0xD8) ==> fold_char(c) == seq!['O'],
        0xF9 <= (c as u32) <= 0xFC ==> fold_char(c) == seq!['u'],
        0xD9 <= (c as u32) <= 0xDC ==> fold_char(c) == seq!['U'],
        ((c as u32) == 0xFD || (c as u32) == 0xFF) ==> fold_char(c) == seq!['y'],
        (c as u32) == 0xE7 ==> fold_char(c) == seq!['c'],
        (c as u32) == 0xC7 ==> fold_char(c) == seq!['C'],
        (c as u32) == 0xF1 ==> fold_char(c) == seq!['n'],
        (c as u32) == 0xD1 ==> fold_char(c) == seq!['N'],
        (c as u32) == 0xDF ==> fold_char(c) == seq!['s', 's'],
{
}

/// Law: typographic quotes, dashes and the ellipsis fold to their plain
/// ASCII forms.
pub proof fn law_fold_typography(c: char)
    ensures
        ((c as u32) == 0x2018 || (c as u32) == 0x2019) ==> fold_char(c) == seq!['\''],
        ((c as u32) == 0x201C || (c as u32) == 0x201D) ==> fold_char(c) == seq!['"'],
        ((c as u32) == 0x2013 || (c as u32) == 0x2014) ==> fold_char(c) == seq!['-'],
        (c as u32) == 0x2026 ==> fold_char(c) == seq!['.', '.', '.'],
{
}

/// Law: any other character beyond ASCII, one with no plain form above (the
/// letters ash, eth, thorn and capital y acute, the multiplication and
/// division signs, symbols, other scripts), is written as `'?'`.
pub proof fn law_fold_unknown_is_question_mark(c: char)
    requires
        (c as u32) >= 128,
        !(0xC0 <= (c as u32) <= 0xC5 || 0xC7 <= (c as u32) <= 0xCF || 0xD1 <= (c as u32) <= 0xD6
            || 0xD8 <= (c as u32) <= 0xDC || 0xDF <= (c as u32) <= 0xE5 || 0xE7 <= (c as u32)
            <= 0xEF || 0xF1 <= (c as u32) <= 0xF6 || 0xF8 <= (c as u32) <= 0xFD || (c as u32)
            == 0xFF),
        !((c as u32) == 0x2018 || (c as u32) == 0x2019 || (c as u32) == 0x201C || (c as u32)
            == 0x201D || (c as u32) == 0x2013 || (c as u32) == 0x2014 || (c as u32) == 0x2026),
    ensures
        fold_char(c) == seq!['?'],
{
}

/// Law: folding a text folds each character in place: the folded text is
/// the folded first part followed by the folded rest.
pub proof fn law_fold_concat(a: Seq<char>, b: Seq<char>)
    ensures
        fold_ascii(a + b) == fold_ascii(a) + fold_ascii(b),
    decreases b.len(),
{
    if b.len() == 0 {
        assert(a + b =~= a);
    } else {
        law_fold_concat(a, b.drop_last());
        assert((a + b).drop_last() =~= a + b.drop_last());
        assert((a + b).last() == b.last());
    }
}

} // verus!
