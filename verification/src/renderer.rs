//! Text to bitmap renderer, with `:icon:` notation.
//!
//! A `:name:` pair renders the named icon; `::` renders a literal colon; a
//! name the font does not know, or a colon without a closing one, renders as
//! the literal characters.
use crate::font::{font_model_wf, Font, FontModel, Icon, COLUMN_BYTES};
use crate::text::str_chars;
use vstd::prelude::*;

verus! {

/// Rendered bitmap data.
pub struct Bitmap {
    pub data: Vec<u8>,
    /// Number of byte-columns (each 8 pixels wide).
    pub width_columns: usize,
}

/// The column of an unknown character: all pixels off.
pub open spec fn blank_column() -> Seq<u8> {
    Seq::new(COLUMN_BYTES as nat, |i: int| 0u8)
}

/// The column drawn for character `c`.
pub open spec fn char_cell(f: FontModel, c: char) -> Seq<u8> {
    if f.glyphs.contains_key(c) {
        f.glyphs[c]
    } else {
        blank_column()
    }
}

/// The columns drawn for the characters of `s`, one each.
pub open spec fn char_cells(f: FontModel, s: Seq<char>) -> Seq<u8>
    decreases s.len(),
{
    if s.len() == 0 {
        Seq::empty()
    } else {
        char_cells(f, s.drop_last()) + char_cell(f, s.last())
    }
}

/// `j` is the position of the first colon in `s`.
pub open spec fn first_colon_at(s: Seq<char>, j: int) -> bool {
    &&& 0 <= j < s.len()
    &&& s[j] == ':'
    &&& forall|k: int| 0 <= k < j ==> s[k] != ':'
}

/// What `:name:` renders as, with the width in columns.
pub open spec fn name_rendering(f: FontModel, name: Seq<char>) -> (Seq<u8>, nat) {
    if name.len() == 0 {
        (char_cell(f, ':'), 1)
    } else if f.icons.contains_key(name) {
        (f.icons[name].0, f.icons[name].1 as nat)
    } else {
        (char_cell(f, ':') + char_cells(f, name) + char_cell(f, ':'), name.len() + 2)
    }
}

/// The bitmap data and width in columns that text `s` renders to.
pub open spec fn rendering(f: FontModel, s: Seq<char>) -> (Seq<u8>, nat)
    decreases s.len(),
{
    if s.len() == 0 {
        (Seq::empty(), 0)
    } else if s[0] != ':' {
        let r = rendering(f, s.drop_first());
        (char_cell(f, s[0]) + r.0, r.1 + 1)
    } else {
        let rest = s.drop_first();
        if exists|j: int| first_colon_at(rest, j) {
            let j = choose|j: int| first_colon_at(rest, j);
            let head = name_rendering(f, rest.take(j));
            let r = rendering(f, rest.skip(j + 1));
            (head.0 + r.0, head.1 + r.1)
        } else {
            (char_cell(f, ':') + char_cells(f, rest), rest.len() + 1)
        }
    }
}

proof fn lemma_char_cell_len(f: FontModel, c: char)
    requires
        font_model_wf(f),
    ensures
        char_cell(f, c).len() == COLUMN_BYTES,
{
    if f.glyphs.contains_key(c) {
        assert(f.glyphs[c].len() == COLUMN_BYTES);
    }
}

proof fn lemma_char_cells_len(f: FontModel, s: Seq<char>)
    requires
        font_model_wf(f),
    ensures
        char_cells(f, s).len() == COLUMN_BYTES * s.len(),
    decreases s.len(),
{
    if s.len() > 0 {
        lemma_char_cells_len(f, s.drop_last());
        lemma_char_cell_len(f, s.last());
    }
}

proof fn lemma_first_colon_unique(s: Seq<char>, j: int)
    requires
        first_colon_at(s, j),
    ensures
        (choose|i: int| first_colon_at(s, i)) == j,
{
    let i = choose|i: int| first_colon_at(s, i);
    assert(first_colon_at(s, i));
    if i < j {
        assert(s[i] != ':');
    } else if j < i {
        assert(s[j] != ':');
    }
}

/// Every rendering fills exactly its columns.
pub proof fn lemma_rendering_columns(f: FontModel, s: Seq<char>)
    requires
        font_model_wf(f),
    ensures
        rendering(f, s).0.len() == COLUMN_BYTES * rendering(f, s).1,
    decreases s.len(),
{
    if s.len() > 0 {
        lemma_char_cell_len(f, ':');
        lemma_char_cell_len(f, s[0]);
        let rest = s.drop_first();
        if s[0] != ':' {
            lemma_rendering_columns(f, rest);
        } else if exists|j: int| first_colon_at(rest, j) {
            let j = choose|j: int| first_colon_at(rest, j);
            let name = rest.take(j);
            lemma_char_cells_len(f, name);
            if name.len() > 0 && f.icons.contains_key(name) {
                assert(f.icons[name].0.len() == COLUMN_BYTES * f.icons[name].1);
            }
            lemma_rendering_columns(f, rest.skip(j + 1));
        } else {
            lemma_char_cells_len(f, rest);
        }
    }
}

proof fn lemma_char_cells_prepend(f: FontModel, c: char, s: Seq<char>)
    ensures
        char_cells(f, seq![c] + s) == char_cell(f, c) + char_cells(f, s),
    decreases s.len(),
{
    if s.len() == 0 {
        assert((seq![c] + s).drop_last() =~= Seq::<char>::empty());
        assert(seq![c] + s =~= seq![c]);
        assert(char_cells(f, s) =~= Seq::<u8>::empty());
        assert(seq![c].drop_last() =~= Seq::<char>::empty());
        assert(seq![c].last() == c);
        assert(char_cells(f, seq![c]) == char_cells(f, Seq::<char>::empty()) + char_cell(f, c));
        assert(char_cells(f, seq![c]) =~= char_cell(f, c));
    } else {
        lemma_char_cells_prepend(f, c, s.drop_last());
        assert((seq![c] + s).drop_last() =~= seq![c] + s.drop_last());
        assert((seq![c] + s).last() == s.last());
        assert(char_cells(f, seq![c] + s) =~= char_cell(f, c) + char_cells(f, s.drop_last())
            + char_cell(f, s.last()));
    }
}

/// Text without colons renders one column per character, each the
/// character's cell.
pub proof fn lemma_plain_text(f: FontModel, s: Seq<char>)
    requires
        forall|k: int| 0 <= k < s.len() ==> s[k] != ':',
    ensures
        rendering(f, s) == (char_cells(f, s), s.len()),
    decreases s.len(),
{
    if s.len() > 0 {
        let rest = s.drop_first();
        assert forall|k: int| 0 <= k < rest.len() implies rest[k] != ':' by {
            assert(rest[k] == s[k + 1]);
        }
        lemma_plain_text(f, rest);
        lemma_char_cells_prepend(f, s[0], rest);
        assert(seq![s[0]] + rest =~= s);
    }
}

/// `::` renders a single colon, and the text after it renders as usual.
pub proof fn lemma_escaped_colon(f: FontModel, s: Seq<char>)
    ensures
        rendering(f, seq![':', ':'] + s) == (
            char_cell(f, ':') + rendering(f, s).0,
            rendering(f, s).1 + 1,
        ),
{
    let t = seq![':', ':'] + s;
    let rest = t.drop_first();
    assert(first_colon_at(rest, 0));
    lemma_first_colon_unique(rest, 0);
    assert(rest.take(0) =~= Seq::<char>::empty());
    assert(rest.skip(1) =~= s);
}

/// `:name:` renders the icon called `name` when the font has one, and the
/// characters `:name:` otherwise; the text after it renders as usual.
pub proof fn lemma_icon_reference(f: FontModel, name: Seq<char>, s: Seq<char>)
    requires
        name.len() > 0,
        forall|k: int| 0 <= k < name.len() ==> name[k] != ':',
    ensures
        f.icons.contains_key(name) ==> rendering(f, seq![':'] + name + seq![':'] + s) == (
            f.icons[name].0 + rendering(f, s).0,
            f.icons[name].1 as nat + rendering(f, s).1,
        ),
        !f.icons.contains_key(name) ==> rendering(f, seq![':'] + name + seq![':'] + s) == (
            char_cell(f, ':') + char_cells(f, name) + char_cell(f, ':') + rendering(f, s).0,
            name.len() + 2 + rendering(f, s).1,
        ),
{
    let t = seq![':'] + name + seq![':'] + s;
    let rest = t.drop_first();
    let j = name.len() as int;
    assert forall|k: int| 0 <= k < j implies rest[k] != ':' by {
        assert(rest[k] == name[k]);
    }
    assert(rest[j] == ':');
    assert(first_colon_at(rest, j));
    lemma_first_colon_unique(rest, j);
    assert(rest.take(j) =~= name);
    assert(rest.skip(j + 1) =~= s);
}

/// A colon with no colon after it renders, with the rest of the text, as
/// literal characters.
pub proof fn lemma_unclosed_colon(f: FontModel, s: Seq<char>)
    requires
        forall|k: int| 0 <= k < s.len() ==> s[k] != ':',
    ensures
        rendering(f, seq![':'] + s) == (char_cell(f, ':') + char_cells(f, s), s.len() + 1),
{
    let t = seq![':'] + s;
    assert(t.drop_first() =~= s);
    if exists|j: int| first_colon_at(s, j) {
        let j = choose|j: int| first_colon_at(s, j);
        assert(s[j] != ':');
    }
}

/// A bitmap's data is no longer than a `usize` can count.
proof fn lemma_data_fits(b: &Bitmap)
    ensures
        b.data@.len() <= usize::MAX,
{
    vstd::std_specs::vec::axiom_spec_len(&b.data);
}

/// A character the font knows renders as the font's glyph for it, rows in
/// order; one it does not know renders as 11 zero bytes. Either is one column.
pub proof fn lemma_single_char(f: FontModel, c: char)
    requires
        c != ':',
    ensures
        f.glyphs.contains_key(c) ==> rendering(f, seq![c]) == (f.glyphs[c], 1nat),
        !f.glyphs.contains_key(c) ==> rendering(f, seq![c]) == (Seq::new(11, |i: int| 0u8), 1nat),
{
    let s = seq![c];
    assert(s.drop_first() =~= Seq::<char>::empty());
    assert(rendering(f, s.drop_first()) == (Seq::<u8>::empty(), 0nat));
    assert(rendering(f, s).0 =~= char_cell(f, c));
    assert(blank_column() =~= Seq::new(11, |i: int| 0u8));
}

/// In text without colons, column `k` (bytes `11k` to `11k + 11`) is the
/// font's glyph for character `k`, or 11 zero bytes for a character the
/// font does not know.
pub proof fn lemma_plain_text_columns(f: FontModel, s: Seq<char>, k: int)
    requires
        font_model_wf(f),
        forall|j: int| 0 <= j < s.len() ==> s[j] != ':',
        0 <= k < s.len(),
    ensures
        rendering(f, s).0.subrange(11 * k, 11 * k + 11) == (if f.glyphs.contains_key(s[k]) {
            f.glyphs[s[k]]
        } else {
            Seq::new(11, |i: int| 0u8)
        }),
{
    lemma_plain_text(f, s);
    lemma_char_cells_column(f, s, k);
    assert(blank_column() =~= Seq::new(11, |i: int| 0u8));
}

proof fn lemma_char_cells_column(f: FontModel, s: Seq<char>, k: int)
    requires
        font_model_wf(f),
        0 <= k < s.len(),
    ensures
        char_cells(f, s).subrange(11 * k, 11 * k + 11) == char_cell(f, s[k]),
    decreases s.len(),
{
    let prev = s.drop_last();
    lemma_char_cells_len(f, prev);
    lemma_char_cell_len(f, s.last());
    if k == s.len() - 1 {
        assert(char_cells(f, s).subrange(11 * k, 11 * k + 11) =~= char_cell(f, s[k]));
    } else {
        lemma_char_cells_column(f, prev, k);
        assert(11 * k + 11 <= 11 * prev.len());
        assert(char_cells(f, s).subrange(11 * k, 11 * k + 11) =~= char_cells(f, prev).subrange(
            11 * k,
            11 * k + 11,
        ));
    }
}

impl Bitmap {
    /// An empty bitmap.
    pub fn new() -> (bitmap: Self)
        ensures
            bitmap.data@ == Seq::<u8>::empty(),
            bitmap.width_columns == 0,
    {
        Bitmap { data: Vec::new(), width_columns: 0 }
    }

    /// Appends the column of `ch`; a character the font lacks appends a blank column.
    pub fn append_char(&mut self, font: &Font, ch: char)
        requires
            old(self).width_columns < usize::MAX,
        ensures
            final(self).data@ == old(self).data@ + char_cell(font@, ch),
            font@.glyphs.contains_key(ch) ==> final(self).data@ == old(self).data@
                + font@.glyphs[ch],
            !font@.glyphs.contains_key(ch) ==> final(self).data@ == old(self).data@ + Seq::new(
                11,
                |i: int| 0u8,
            ),
            final(self).width_columns == old(self).width_columns + 1,
    {
        match font.get_char_bitmap(ch) {
            Some(rows) => {
                self.data.extend_from_slice(rows.as_slice());
                assert(self.data@ =~= old(self).data@ + char_cell(font@, ch));
            },
            None => {
                let blank = [0u8; 11];
                self.data.extend_from_slice(blank.as_slice());
                assert(self.data@ =~= old(self).data@ + char_cell(font@, ch));
            },
        }
        self.width_columns = self.width_columns + 1;
    }

    /// Appends the icon called `name`; nothing happens if the font has no such icon.
    pub fn append_icon(&mut self, font: &Font, name: &str)
        requires
            font@.icons.contains_key(name@) ==> old(self).width_columns + font@.icons[name@].1
                <= usize::MAX,
        ensures
            font@.icons.contains_key(name@) ==> final(self).data@ == old(self).data@
                + font@.icons[name@].0 && final(self).width_columns == old(self).width_columns
                + font@.icons[name@].1,
            !font@.icons.contains_key(name@) ==> final(self).data@ == old(self).data@
                && final(self).width_columns == old(self).width_columns,
    {
        if let Some(icon) = font.get_icon(name) {
            self.append_raw(icon.data.as_slice(), icon.width_columns);
        }
    }

    /// Appends raw bitmap data spanning `columns` columns.
    pub fn append_raw(&mut self, data: &[u8], columns: usize)
        requires
            old(self).width_columns + columns <= usize::MAX,
        ensures
            final(self).data@ == old(self).data@ + data@,
            final(self).width_columns == old(self).width_columns + columns,
    {
        self.data.extend_from_slice(data);
        assert(self.data@ =~= old(self).data@ + data@);
        self.width_columns = self.width_columns + columns;
    }

    /// Appends an icon's data to a bitmap whose data fills exactly its columns.
    fn append_icon_data(&mut self, icon: &Icon)
        requires
            old(self).data@.len() == COLUMN_BYTES * old(self).width_columns,
            icon.data@.len() == COLUMN_BYTES * icon.width_columns,
        ensures
            final(self).data@ == old(self).data@ + icon.data@,
            final(self).width_columns == old(self).width_columns + icon.width_columns,
            final(self).data@.len() == COLUMN_BYTES * final(self).width_columns,
    {
        self.data.extend_from_slice(icon.data.as_slice());
        assert(self.data@ =~= old(self).data@ + icon.data@);
        let total = self.data.len();
        assert(total == COLUMN_BYTES * (old(self).width_columns + icon.width_columns));
        self.width_columns = self.width_columns + icon.width_columns;
    }

    /// Appends the columns of `chars[from..to]`, one per character.
    fn append_chars(&mut self, font: &Font, chars: &Vec<char>, from: usize, to: usize)
        requires
            from <= to <= chars@.len(),
            font_model_wf(font@),
            old(self).data@.len() == COLUMN_BYTES * old(self).width_columns,
        ensures
            final(self).data@ == old(self).data@ + char_cells(font@, chars@.subrange(
                from as int,
                to as int,
            )),
            final(self).width_columns == old(self).width_columns + (to - from),
            final(self).data@.len() == COLUMN_BYTES * final(self).width_columns,
    {
        let mut k = from;
        while k < to
            invariant
                from <= k <= to <= chars@.len(),
                font_model_wf(font@),
                self.data@ == old(self).data@ + char_cells(font@, chars@.subrange(
                    from as int,
                    k as int,
                )),
                self.width_columns == old(self).width_columns + (k - from),
                self.data@.len() == COLUMN_BYTES * self.width_columns,
            decreases to - k,
        {
            proof {
                lemma_data_fits(self);
            }
            assert(self.width_columns < usize::MAX);
            self.append_char(font, chars[k]);
            proof {
                lemma_char_cell_len(font@, chars@[k as int]);
                assert(chars@.subrange(from as int, k + 1).drop_last() =~= chars@.subrange(
                    from as int,
                    k as int,
                ));
                assert(self.data@ =~= old(self).data@ + char_cells(
                    font@,
                    chars@.subrange(from as int, k + 1),
                ));
            }
            k = k + 1;
        }
    }
}

impl Default for Bitmap {
    fn default() -> (bitmap: Self)
        ensures
            bitmap.data@ == Seq::<u8>::empty(),
            bitmap.width_columns == 0,
    {
        Self::new()
    }
}

impl Bitmap {
    /// Appends what the `:` at `chars[pos]` starts: an icon, an escaped
    /// colon, or literal characters. Returns the position after it.
    fn append_reference(&mut self, font: &Font, chars: &Vec<char>, pos: usize) -> (next: usize)
        requires
            pos < chars@.len(),
            chars@[pos as int] == ':',
            font_model_wf(font@),
            old(self).data@.len() == COLUMN_BYTES * old(self).width_columns,
        ensures
            pos < next <= chars@.len(),
            final(self).data@.len() == COLUMN_BYTES * final(self).width_columns,
            final(self).data@ + rendering(font@, chars@.skip(next as int)).0 == old(self).data@
                + rendering(font@, chars@.skip(pos as int)).0,
            final(self).width_columns + rendering(font@, chars@.skip(next as int)).1
                == old(self).width_columns + rendering(font@, chars@.skip(pos as int)).1,
    {
        let ghost s = chars@;
        let ghost f = font@;
        let ghost old_data = self.data@;
        let ghost old_width = self.width_columns;
        let ghost tail = s.skip(pos as int);
        let n = chars.len();
        assert(tail[0] == ':');
        let start = pos + 1;
        let ghost rest = tail.drop_first();
        assert(rest =~= s.skip(start as int));
        let mut q = start;
        let mut name = String::new();
        while q < n && chars[q] != ':'
            invariant
                start <= q <= n,
                n == s.len(),
                s == chars@,
                name@ == s.subrange(start as int, q as int),
                forall|k: int| start <= k < q ==> s[k] != ':',
            decreases n - q,
        {
            name.push(chars[q]);
            assert(s.subrange(start as int, q + 1) =~= s.subrange(start as int, q as int).push(
                s[q as int],
            ));
            q = q + 1;
        }
        proof {
            lemma_char_cell_len(f, ':');
        }
        if q < n {
            // `:name:` with its closing colon at `q`
            let ghost j = q - start;
            proof {
                assert(first_colon_at(rest, j));
                lemma_first_colon_unique(rest, j);
                assert(rest.take(j) =~= s.subrange(start as int, q as int));
                assert(rest.skip(j + 1) =~= s.skip(q + 1));
            }
            if q == start {
                proof {
                    lemma_data_fits(self);
                }
                self.append_char(font, ':');
            } else {
                match font.get_icon(name.as_str()) {
                    Some(icon) => {
                        self.append_icon_data(icon);
                    },
                    None => {
                        proof {
                            lemma_data_fits(self);
                        }
                        self.append_char(font, ':');
                        self.append_chars(font, chars, start, q);
                        proof {
                            lemma_data_fits(self);
                        }
                        self.append_char(font, ':');
                    },
                }
            }
            proof {
                let head = name_rendering(f, rest.take(j));
                assert(self.data@ =~= old_data + head.0);
                assert(self.width_columns == old_width + head.1);
                assert(self.data@ + rendering(f, s.skip(q + 1)).0 =~= old_data + rendering(
                    f,
                    tail,
                ).0);
            }
            q + 1
        } else {
            // no closing colon: the rest is literal text
            proof {
                assert(!exists|j: int| first_colon_at(rest, j)) by {
                    if exists|j: int| first_colon_at(rest, j) {
                        let j = choose|j: int| first_colon_at(rest, j);
                        assert(rest[j] == s[start + j]);
                    }
                }
                assert(s.subrange(start as int, n as int) =~= rest);
            }
            proof {
                lemma_data_fits(self);
            }
            self.append_char(font, ':');
            self.append_chars(font, chars, start, n);
            proof {
                assert(self.data@ =~= old_data + rendering(f, tail).0);
                assert(s.skip(n as int) =~= Seq::<char>::empty());
                assert(self.data@ + rendering(f, s.skip(n as int)).0 =~= self.data@);
            }
            n
        }
    }
}

/// Renders text to a bitmap, supporting `:icon:` notation.
pub fn render_text(font: &Font, text: &str) -> (bitmap: Bitmap)
    ensures
        bitmap.data@ == rendering(font@, text@).0,
        bitmap.width_columns == rendering(font@, text@).1,
{
    font.model_wf();
    let chars = str_chars(text);
    let n = chars.len();
    let ghost s = chars@;
    let ghost f = font@;
    let mut bitmap = Bitmap::new();
    let mut pos: usize = 0;
    assert(s.skip(0) =~= s);
    while pos < n
        invariant
            n == s.len(),
            s == chars@,
            s == text@,
            f == font@,
            font_model_wf(f),
            pos <= n,
            bitmap.data@.len() == COLUMN_BYTES * bitmap.width_columns,
            rendering(f, s).0 == bitmap.data@ + rendering(f, s.skip(pos as int)).0,
            rendering(f, s).1 == bitmap.width_columns + rendering(f, s.skip(pos as int)).1,
        decreases n - pos,
    {
        let ghost old_data = bitmap.data@;
        let ghost tail = s.skip(pos as int);
        let ch = chars[pos];
        assert(tail[0] == ch);
        if ch == ':' {
            let next = bitmap.append_reference(font, &chars, pos);
            proof {
                assert(old_data + rendering(f, tail).0 =~= bitmap.data@ + rendering(
                    f,
                    s.skip(next as int),
                ).0);
                assert(rendering(f, s).0 =~= bitmap.data@ + rendering(f, s.skip(next as int)).0);
            }
            pos = next;
        } else {
            proof {
                lemma_data_fits(&bitmap);
            }
            bitmap.append_char(font, ch);
            proof {
                lemma_char_cell_len(f, ch);
                assert(tail.drop_first() =~= s.skip(pos + 1));
            }
            pos = pos + 1;
        }
    }
    proof {
        assert(s.skip(n as int) =~= Seq::<char>::empty());
    }
    bitmap
}

} // verus!
