//! Glyph and icon tables used to render text.
//!
//! Every character cell is one byte-column: 11 bytes, one per pixel row,
//! each byte holding 8 horizontal pixels. An icon spans one or more columns.
use vstd::prelude::*;

verus! {

/// Number of bytes (pixel rows) in one column.
pub const COLUMN_BYTES: usize = 11;

/// What a font holds: the cell of each character it knows, the data and
/// width in columns of each named icon, and the icon names in the order
/// they were first added.
pub struct FontModel {
    pub glyphs: Map<char, Seq<u8>>,
    pub icons: Map<Seq<char>, (Seq<u8>, usize)>,
    pub icon_names: Seq<Seq<char>>,
}

/// Every glyph is one column and every icon's data fills exactly its columns.
pub open spec fn font_model_wf(f: FontModel) -> bool {
    &&& forall|c: char| #[trigger] f.glyphs.contains_key(c) ==> f.glyphs[c].len() == COLUMN_BYTES
    &&& forall|n: Seq<char>| #[trigger]
        f.icons.contains_key(n) ==> f.icons[n].0.len() == COLUMN_BYTES * f.icons[n].1
}

/// One column of pixels.
pub type Column = [u8; 11];

struct Glyph {
    ch: char,
    rows: Column,
}

/// A named icon: its bitmap data and its width in byte-columns.
pub struct Icon {
    pub name: String,
    pub data: Vec<u8>,
    pub width_columns: usize,
}

/// The concatenation of the given columns.
pub open spec fn columns_bytes(columns: Seq<Column>) -> Seq<u8>
    decreases columns.len(),
{
    if columns.len() == 0 {
        Seq::empty()
    } else {
        columns_bytes(columns.drop_last()) + columns.last()@
    }
}

proof fn lemma_columns_bytes_len(columns: Seq<Column>)
    ensures
        columns_bytes(columns).len() == COLUMN_BYTES * columns.len(),
    decreases columns.len(),
{
    if columns.len() > 0 {
        lemma_columns_bytes_len(columns.drop_last());
        assert(COLUMN_BYTES * columns.len() == COLUMN_BYTES * columns.drop_last().len()
            + COLUMN_BYTES) by (nonlinear_arith)
            requires
                columns.drop_last().len() + 1 == columns.len(),
        ;
    }
}

/// The first glyph for `c`.
spec fn glyph_lookup(glyphs: Seq<Glyph>, c: char) -> Option<Seq<u8>>
    decreases glyphs.len(),
{
    if glyphs.len() == 0 {
        None
    } else if glyphs[0].ch == c {
        Some(glyphs[0].rows@)
    } else {
        glyph_lookup(glyphs.drop_first(), c)
    }
}

/// The first icon called `name`.
spec fn icon_lookup(icons: Seq<Icon>, name: Seq<char>) -> Option<(Seq<u8>, usize)>
    decreases icons.len(),
{
    if icons.len() == 0 {
        None
    } else if icons[0].name@ == name {
        Some((icons[0].data@, icons[0].width_columns))
    } else {
        icon_lookup(icons.drop_first(), name)
    }
}

proof fn lemma_glyph_lookup_len(glyphs: Seq<Glyph>, c: char)
    ensures
        glyph_lookup(glyphs, c) is Some ==> glyph_lookup(glyphs, c).unwrap().len() == COLUMN_BYTES,
    decreases glyphs.len(),
{
    if glyphs.len() > 0 && glyphs[0].ch != c {
        lemma_glyph_lookup_len(glyphs.drop_first(), c);
    }
}

proof fn lemma_icon_lookup_wf(icons: Seq<Icon>, name: Seq<char>)
    requires
        forall|i: int|
            0 <= i < icons.len() ==> (#[trigger] icons[i]).data@.len() == COLUMN_BYTES
                * icons[i].width_columns,
    ensures
        icon_lookup(icons, name) is Some ==> icon_lookup(icons, name).unwrap().0.len()
            == COLUMN_BYTES * icon_lookup(icons, name).unwrap().1,
    decreases icons.len(),
{
    if icons.len() > 0 && icons[0].name@ != name {
        assert forall|i: int|
            0 <= i < icons.drop_first().len() implies (#[trigger] icons.drop_first()[i]).data@.len()
            == COLUMN_BYTES * icons.drop_first()[i].width_columns by {
            assert(icons.drop_first()[i] == icons[i + 1]);
        }
        lemma_icon_lookup_wf(icons.drop_first(), name);
    }
}

/// Character and icon tables.
pub struct Font {
    glyphs: Vec<Glyph>,
    icons: Vec<Icon>,
}

impl View for Font {
    type V = FontModel;

    closed spec fn view(&self) -> FontModel {
        FontModel {
            glyphs: Map::new(
                |c: char| glyph_lookup(self.glyphs@, c) is Some,
                |c: char| glyph_lookup(self.glyphs@, c).unwrap(),
            ),
            icons: Map::new(
                |n: Seq<char>| icon_lookup(self.icons@, n) is Some,
                |n: Seq<char>| icon_lookup(self.icons@, n).unwrap(),
            ),
            icon_names: self.icons@.map_values(|i: Icon| i.name@),
        }
    }
}

impl Font {
    #[verifier::type_invariant]
    spec fn well_formed(self) -> bool {
        &&& forall|i: int|
            0 <= i < self.icons@.len() ==> (#[trigger] self.icons@[i]).data@.len() == COLUMN_BYTES
                * self.icons@[i].width_columns
        &&& forall|a: int, b: int|
            0 <= a < b < self.icons@.len() ==> (#[trigger] self.icons@[a]).name@
                != (#[trigger] self.icons@[b]).name@
    }

    /// Every font satisfies `font_model_wf`.
    pub fn model_wf(&self)
        ensures
            font_model_wf(self@),
    {
        proof {
            use_type_invariant(self);
            assert forall|c: char| #[trigger] self@.glyphs.contains_key(c) implies self@.glyphs[c].len()
                == COLUMN_BYTES by {
                lemma_glyph_lookup_len(self.glyphs@, c);
            }
            assert forall|n: Seq<char>| #[trigger] self@.icons.contains_key(n) implies self@.icons[n].0.len()
                == COLUMN_BYTES * self@.icons[n].1 by {
                lemma_icon_lookup_wf(self.icons@, n);
            }
        }
    }

    /// A font with no glyphs and no icons.
    pub fn new() -> (font: Self)
        ensures
            font@.glyphs == Map::<char, Seq<u8>>::empty(),
            font@.icons == Map::<Seq<char>, (Seq<u8>, usize)>::empty(),
            font@.icon_names == Seq::<Seq<char>>::empty(),
    {
        let font = Font { glyphs: Vec::new(), icons: Vec::new() };
        assert(font@.glyphs =~= Map::<char, Seq<u8>>::empty());
        assert(font@.icons =~= Map::<Seq<char>, (Seq<u8>, usize)>::empty());
        assert(font@.icon_names =~= Seq::<Seq<char>>::empty());
        font
    }

    /// Sets the cell of character `ch`, replacing any earlier one.
    pub fn add_glyph(&mut self, ch: char, rows: Column)
        ensures
            final(self)@.glyphs == old(self)@.glyphs.insert(ch, rows@),
            final(self)@.icons == old(self)@.icons,
            final(self)@.icon_names == old(self)@.icon_names,
    {
        proof {
            use_type_invariant(&*self);
        }
        let ghost old_glyphs = self.glyphs@;
        let mut glyphs: Vec<Glyph> = Vec::new();
        std::mem::swap(&mut glyphs, &mut self.glyphs);
        glyphs.insert(0, Glyph { ch, rows });
        self.glyphs = glyphs;
        proof {
            assert(self.glyphs@.drop_first() =~= old_glyphs);
            assert(self@.glyphs =~= old(self)@.glyphs.insert(ch, rows@));
            assert(self@.icons =~= old(self)@.icons);
            assert(self@.icon_names =~= old(self)@.icon_names);
        }
    }

    /// Sets the icon called `name` to the given columns, replacing any earlier one.
    pub fn add_icon(&mut self, name: &str, columns: &[Column])
        ensures
            final(self)@.icons == old(self)@.icons.insert(
                name@,
                (columns_bytes(columns@), columns@.len() as usize),
            ),
            final(self)@.glyphs == old(self)@.glyphs,
            final(self)@.icon_names == if old(self)@.icons.contains_key(name@) {
                old(self)@.icon_names
            } else {
                old(self)@.icon_names.push(name@)
            },
    {
        proof {
            use_type_invariant(&*self);
        }
        let mut data: Vec<u8> = Vec::new();
        let mut i: usize = 0;
        while i < columns.len()
            invariant
                i <= columns@.len(),
                data@ == columns_bytes(columns@.take(i as int)),
            decreases columns@.len() - i,
        {
            let column = columns[i];
            let mut r: usize = 0;
            let ghost before = data@;
            while r < COLUMN_BYTES
                invariant
                    r <= COLUMN_BYTES,
                    column@.len() == COLUMN_BYTES,
                    data@ == before + column@.take(r as int),
                decreases COLUMN_BYTES - r,
            {
                data.push(column[r]);
                proof {
                    assert(column@.take(r + 1) =~= column@.take(r as int).push(column@[r as int]));
                }
                r = r + 1;
            }
            proof {
                assert(column@.take(COLUMN_BYTES as int) =~= column@);
                assert(columns@.take(i + 1).drop_last() =~= columns@.take(i as int));
            }
            i = i + 1;
        }
        proof {
            assert(columns@.take(columns@.len() as int) =~= columns@);
            lemma_columns_bytes_len(columns@);
        }
        let icon = Icon { name: name.to_owned(), data, width_columns: columns.len() };
        let key = name.to_owned();
        let ghost old_icons = self.icons@;
        let ghost value = (columns_bytes(columns@), columns@.len() as usize);
        let found = self.icon_index(&key);
        let mut icons: Vec<Icon> = Vec::new();
        std::mem::swap(&mut icons, &mut self.icons);
        match found {
            Some(i) => {
                icons[i] = icon;
                proof {
                    assert(icons@ == old_icons.update(i as int, icons@[i as int]));
                    lemma_icon_lookup_first(icons@, i as int, name@);
                    assert forall|n: Seq<char>| n != name@ implies icon_lookup(icons@, n)
                        == icon_lookup(old_icons, n) by {
                        lemma_icon_lookup_update(old_icons, i as int, icons@[i as int], n);
                    }
                    assert forall|a: int, b: int|
                        0 <= a < b < icons@.len() implies (#[trigger] icons@[a]).name@
                        != (#[trigger] icons@[b]).name@ by {
                        assert(old_icons[a].name@ != old_icons[b].name@);
                    }
                }
            },
            None => {
                icons.push(icon);
                proof {
                    assert forall|n: Seq<char>| #[trigger] icon_lookup(icons@, n) == if n == name@ {
                        Some(value)
                    } else {
                        icon_lookup(old_icons, n)
                    } by {
                        lemma_icon_lookup_push(old_icons, icons@.last(), n);
                        if n == name@ {
                            lemma_icon_lookup_none(old_icons, n);
                        }
                    }
                    assert forall|a: int, b: int|
                        0 <= a < b < icons@.len() implies (#[trigger] icons@[a]).name@
                        != (#[trigger] icons@[b]).name@ by {
                        if b == icons@.len() - 1 {
                            assert(old_icons[a].name@ != key@);
                        } else {
                            assert(old_icons[a].name@ != old_icons[b].name@);
                        }
                    }
                }
            },
        }
        self.icons = icons;
        proof {
            assert(self@.icons =~= old(self)@.icons.insert(name@, value));
            assert(self@.glyphs =~= old(self)@.glyphs);
            if old(self)@.icons.contains_key(name@) {
                let k = lemma_icon_lookup_some(old_icons, name@);
                assert(found is Some);
                assert(self@.icon_names =~= old(self)@.icon_names);
            } else {
                if found is Some {
                    lemma_icon_lookup_found(old_icons, found.unwrap() as int);
                }
                assert(self@.icon_names =~= old(self)@.icon_names.push(name@));
            }
        }
    }

    /// Position of the icon called `key`, if any.
    fn icon_index(&self, key: &String) -> (r: Option<usize>)
        ensures
            r matches Some(i) ==> i < self.icons@.len() && self.icons@[i as int].name@ == key@
                && forall|k: int| 0 <= k < i ==> self.icons@[k].name@ != key@,
            r is None ==> forall|k: int| 0 <= k < self.icons@.len() ==> self.icons@[k].name@ != key@,
    {
        let n = self.icons.len();
        let mut i: usize = 0;
        while i < n
            invariant
                n == self.icons@.len(),
                i <= n,
                forall|k: int| 0 <= k < i ==> self.icons@[k].name@ != key@,
            decreases n - i,
        {
            if self.icons[i].name == *key {
                return Some(i);
            }
            i = i + 1;
        }
        None
    }

    /// The cell of character `ch`, if the font has one.
    pub fn get_char_bitmap(&self, ch: char) -> (rows: Option<Column>)
        ensures
            rows is Some <==> self@.glyphs.contains_key(ch),
            rows matches Some(r) ==> r@ == self@.glyphs[ch],
    {
        let n = self.glyphs.len();
        let mut i: usize = 0;
        assert(self.glyphs@.skip(0) =~= self.glyphs@);
        while i < n
            invariant
                n == self.glyphs@.len(),
                i <= n,
                glyph_lookup(self.glyphs@, ch) == glyph_lookup(self.glyphs@.skip(i as int), ch),
            decreases n - i,
        {
            assert(self.glyphs@.skip(i as int)[0] == self.glyphs@[i as int]);
            if self.glyphs[i].ch == ch {
                return Some(self.glyphs[i].rows);
            }
            assert(self.glyphs@.skip(i as int).drop_first() =~= self.glyphs@.skip(i + 1));
            i = i + 1;
        }
        None
    }

    /// The icon called `name`, if the font has one.
    pub fn get_icon(&self, name: &str) -> (icon: Option<&Icon>)
        ensures
            icon is Some <==> self@.icons.contains_key(name@),
            icon matches Some(ic) ==> (ic.data@, ic.width_columns) == self@.icons[name@]
                && ic.data@.len() == COLUMN_BYTES * ic.width_columns,
    {
        proof {
            use_type_invariant(self);
        }
        let key = name.to_owned();
        let n = self.icons.len();
        let mut i: usize = 0;
        assert(self.icons@.skip(0) =~= self.icons@);
        while i < n
            invariant
                n == self.icons@.len(),
                i <= n,
                key@ == name@,
                forall|j: int|
                    0 <= j < self.icons@.len() ==> (#[trigger] self.icons@[j]).data@.len()
                        == COLUMN_BYTES * self.icons@[j].width_columns,
                icon_lookup(self.icons@, name@) == icon_lookup(self.icons@.skip(i as int), name@),
            decreases n - i,
        {
            assert(self.icons@.skip(i as int)[0] == self.icons@[i as int]);
            if self.icons[i].name == key {
                proof {
                    assert(self.icons@[i as int].data@.len() == COLUMN_BYTES
                        * self.icons@[i as int].width_columns);
                    assert(icon_lookup(self.icons@.skip(i as int), name@) == Some(
                        (self.icons@[i as int].data@, self.icons@[i as int].width_columns),
                    ));
                }
                return Some(&self.icons[i]);
            }
            assert(self.icons@.skip(i as int).drop_first() =~= self.icons@.skip(i + 1));
            i = i + 1;
        }
        None
    }

    /// Names of all icons, each once, in the order they were first added.
    pub fn list_icons(&self) -> (names: Vec<String>)
        ensures
            names@.map_values(|s: String| s@) == self@.icon_names,
            forall|i: int| 0 <= i < names@.len() ==> self@.icons.contains_key(#[trigger] names@[i]@),
            forall|n: Seq<char>|
                #[trigger] self@.icons.contains_key(n) ==> exists|i: int|
                    0 <= i < names@.len() && names@[i]@ == n,
            forall|a: int, b: int|
                0 <= a < b < names@.len() ==> (#[trigger] names@[a])@ != (#[trigger] names@[b])@,
    {
        proof {
            use_type_invariant(self);
        }
        let mut names: Vec<String> = Vec::new();
        let n = self.icons.len();
        let mut i: usize = 0;
        while i < n
            invariant
                n == self.icons@.len(),
                i <= n,
                names@.len() == i,
                forall|j: int| 0 <= j < i ==> (#[trigger] names@[j])@ == self.icons@[j].name@,
            decreases n - i,
        {
            names.push(self.icons[i].name.clone());
            i = i + 1;
        }
        proof {
            assert forall|j: int| 0 <= j < names@.len() implies self@.icons.contains_key(
                #[trigger] names@[j]@,
            ) by {
                lemma_icon_lookup_found(self.icons@, j);
            }
            assert forall|nm: Seq<char>| #[trigger] self@.icons.contains_key(nm) implies exists|j: int|
                0 <= j < names@.len() && names@[j]@ == nm by {
                let k = lemma_icon_lookup_some(self.icons@, nm);
                assert(names@[k]@ == nm);
            }
            assert forall|a: int, b: int| 0 <= a < b < names@.len() implies (#[trigger] names@[a])@
                != (#[trigger] names@[b])@ by {
                assert(self.icons@[a].name@ != self.icons@[b].name@);
            }
            assert(names@.map_values(|s: String| s@) =~= self@.icon_names);
        }
        names
    }

}

proof fn lemma_icon_lookup_first(icons: Seq<Icon>, i: int, name: Seq<char>)
    requires
        0 <= i < icons.len(),
        icons[i].name@ == name,
        forall|k: int| 0 <= k < i ==> icons[k].name@ != name,
    ensures
        icon_lookup(icons, name) == Some((icons[i].data@, icons[i].width_columns)),
    decreases icons.len(),
{
    if i > 0 {
        let rest = icons.drop_first();
        assert forall|k: int| 0 <= k < i - 1 implies rest[k].name@ != name by {
            assert(rest[k] == icons[k + 1]);
        }
        assert(rest[i - 1] == icons[i]);
        lemma_icon_lookup_first(rest, i - 1, name);
    }
}

proof fn lemma_icon_lookup_none(icons: Seq<Icon>, name: Seq<char>)
    requires
        forall|k: int| 0 <= k < icons.len() ==> icons[k].name@ != name,
    ensures
        icon_lookup(icons, name) is None,
    decreases icons.len(),
{
    if icons.len() > 0 {
        let rest = icons.drop_first();
        assert forall|k: int| 0 <= k < rest.len() implies rest[k].name@ != name by {
            assert(rest[k] == icons[k + 1]);
        }
        lemma_icon_lookup_none(rest, name);
    }
}

proof fn lemma_icon_lookup_update(icons: Seq<Icon>, i: int, x: Icon, name: Seq<char>)
    requires
        0 <= i < icons.len(),
        icons[i].name@ != name,
        x.name@ != name,
    ensures
        icon_lookup(icons.update(i, x), name) == icon_lookup(icons, name),
    decreases icons.len(),
{
    let updated = icons.update(i, x);
    if i == 0 {
        assert(updated.drop_first() =~= icons.drop_first());
    } else {
        assert(updated[0] == icons[0]);
        if icons[0].name@ != name {
            assert(updated.drop_first() =~= icons.drop_first().update(i - 1, x));
            lemma_icon_lookup_update(icons.drop_first(), i - 1, x, name);
        }
    }
}

proof fn lemma_icon_lookup_push(icons: Seq<Icon>, x: Icon, name: Seq<char>)
    ensures
        icon_lookup(icons.push(x), name) == if icon_lookup(icons, name) is Some {
            icon_lookup(icons, name)
        } else if x.name@ == name {
            Some((x.data@, x.width_columns))
        } else {
            None
        },
    decreases icons.len(),
{
    let pushed = icons.push(x);
    if icons.len() == 0 {
        assert(pushed.drop_first() =~= Seq::<Icon>::empty());
    } else {
        assert(pushed[0] == icons[0]);
        assert(pushed.drop_first() =~= icons.drop_first().push(x));
        lemma_icon_lookup_push(icons.drop_first(), x, name);
    }
}

/// A name present in the table is found.
proof fn lemma_icon_lookup_found(icons: Seq<Icon>, k: int)
    requires
        0 <= k < icons.len(),
    ensures
        icon_lookup(icons, icons[k].name@) is Some,
    decreases icons.len(),
{
    if icons[0].name@ != icons[k].name@ {
        assert(icons.drop_first()[k - 1] == icons[k]);
        lemma_icon_lookup_found(icons.drop_first(), k - 1);
    }
}

/// A name that is found is present in the table.
proof fn lemma_icon_lookup_some(icons: Seq<Icon>, name: Seq<char>) -> (k: int)
    requires
        icon_lookup(icons, name) is Some,
    ensures
        0 <= k < icons.len(),
        icons[k].name@ == name,
    decreases icons.len(),
{
    if icons[0].name@ == name {
        0
    } else {
        let k = lemma_icon_lookup_some(icons.drop_first(), name);
        assert(icons.drop_first()[k] == icons[k + 1]);
        k + 1
    }
}

} // verus!
