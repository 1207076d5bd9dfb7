//! Palettes: the distinct block identifiers of a map, each with a code.
//!
//! Code 0 always belongs to air. The other identifiers get the codes 1, 2, ...
//! in the order in which a walk over the map first meets them.

use vstd::prelude::*;

use crate::voxel::{Cell, VoxelMap};

verus! {

/// The identifier of air, which every palette holds at code 0.
pub open spec fn air() -> Seq<char> {
    "minecraft:air"@
}

/// The block identifiers of the entries, in order.
pub open spec fn blocks(cells: Seq<Cell>) -> Seq<Seq<char>> {
    cells.map_values(|c: Cell| c.block)
}

/// The palette built from a sequence of identifiers: air first, then each
/// identifier in the order of its first occurrence.
pub open spec fn palette_of(names: Seq<Seq<char>>) -> Seq<Seq<char>>
    decreases names.len(),
{
    if names.len() == 0 {
        seq![air()]
    } else {
        let before = palette_of(names.drop_last());
        if before.contains(names.last()) {
            before
        } else {
            before.push(names.last())
        }
    }
}

/// What holds of every palette: air has code 0 and no identifier occurs twice.
pub open spec fn valid_palette(palette: Seq<Seq<char>>) -> bool {
    &&& palette.len() >= 1
    &&& palette[0] == air()
    &&& palette.no_duplicates()
}

/// The code of `name` in `palette`: the index at which it stands.
pub open spec fn code_of(palette: Seq<Seq<char>>, name: Seq<char>) -> int {
    choose|i: int| 0 <= i < palette.len() && palette[i] == name
}

/// The views of a sequence of strings.
pub open spec fn views(names: Seq<String>) -> Seq<Seq<char>> {
    names.map_values(|s: String| s@)
}

/// In a palette, the identifier at index `i` has code `i`.
pub proof fn lemma_code_of_index(palette: Seq<Seq<char>>, i: int)
    requires
        palette.no_duplicates(),
        0 <= i < palette.len(),
    ensures
        code_of(palette, palette[i]) == i,
{
}

/// The palette built from any identifiers is valid, holds each of them, and
/// holds nothing else but air.
pub proof fn lemma_palette_of(names: Seq<Seq<char>>)
    ensures
        valid_palette(palette_of(names)),
        palette_of(names).len() <= names.len() + 1,
        forall|i: int| 0 <= i < names.len() ==> palette_of(names).contains(#[trigger] names[i]),
        forall|k: int|
            1 <= k < palette_of(names).len() ==> names.contains(#[trigger] palette_of(names)[k]),
    decreases names.len(),
{
    if names.len() > 0 {
        let front = names.drop_last();
        let before = palette_of(front);
        let after = palette_of(names);
        lemma_palette_of(front);
        assert forall|i: int| 0 <= i < names.len() implies after.contains(#[trigger] names[i]) by {
            if i < front.len() {
                assert(front[i] == names[i]);
                assert(before.contains(front[i]));
                let k = choose|k: int| 0 <= k < before.len() && before[k] == front[i];
                assert(after[k] == names[i]);
            } else if before.contains(names.last()) {
            } else {
                assert(after[before.len() as int] == names[i]);
            }
        }
        assert forall|k: int| 1 <= k < after.len() implies names.contains(#[trigger] after[k]) by {
            if k < before.len() {
                assert(after[k] == before[k]);
                assert(front.contains(before[k]));
                let i = choose|i: int| 0 <= i < front.len() && front[i] == before[k];
                assert(names[i] == after[k]);
            } else {
                assert(names[names.len() - 1] == after[k]);
            }
        }
    }
}

/// Air has code 0 in the palette of any map, whether or not the map holds air.
pub proof fn lemma_air_has_code_zero(names: Seq<Seq<char>>)
    ensures
        palette_of(names)[0] == air(),
        code_of(palette_of(names), air()) == 0,
{
    lemma_palette_of(names);
    lemma_code_of_index(palette_of(names), 0);
}

/// The ordered block identifiers of a map. The code of an identifier is its
/// index.
#[derive(Debug)]
pub struct Palette {
    names: Vec<String>,
}

impl View for Palette {
    type V = Seq<Seq<char>>;

    /// The identifiers in the order of their codes.
    closed spec fn view(&self) -> Seq<Seq<char>> {
        views(self.names@)
    }
}

impl Palette {
    /// Air has code 0 and no identifier occurs twice.
    #[verifier::type_invariant]
    pub open spec fn wf(self) -> bool {
        valid_palette(self@)
    }

    /// The palette of a map, and beside it the code of the block of each
    /// entry, in the order of the entries.
    pub fn build_indexed(map: &VoxelMap) -> (built: (Palette, Vec<usize>))
        ensures
            built.0@ == palette_of(blocks(map@)),
            built.1@.len() == map@.len(),
            forall|j: int|
                0 <= j < map@.len() ==> (#[trigger] built.1@[j]) as int == code_of(
                    built.0@,
                    map@[j].block,
                ),
    {
        let n = map.len();
        let ghost all = blocks(map@);
        let mut names: Vec<String> = Vec::new();
        names.push("minecraft:air".to_owned());
        let mut codes: Vec<usize> = Vec::new();
        assert(views(names@) =~= palette_of(all.take(0)));
        let mut j: usize = 0;
        while j < n
            invariant
                j <= n,
                n == map@.len(),
                all == blocks(map@),
                views(names@) == palette_of(all.take(j as int)),
                codes@.len() == j,
                forall|t: int|
                    0 <= t < j ==> 0 <= #[trigger] codes@[t] < names@.len() && views(
                        names@,
                    )[codes@[t] as int] == all[t],
            decreases n - j,
        {
            let voxel = map.entry(j);
            let ghost before = views(names@);
            proof {
                assert(all.take(j + 1).drop_last() =~= all.take(j as int));
                assert(all.take(j + 1).last() == all[j as int]);
                assert(all[j as int] == voxel@.block);
                lemma_palette_of(all.take(j as int));
            }
            match find_name(&names, &voxel.block) {
                Some(code) => {
                    codes.push(code);
                },
                None => {
                    codes.push(names.len());
                    names.push(voxel.block.clone());
                    assert(views(names@) =~= before.push(voxel@.block));
                },
            }
            j += 1;
        }
        proof {
            assert(all.take(n as int) =~= all);
            lemma_palette_of(all);
            assert forall|t: int| 0 <= t < map@.len() implies (#[trigger] codes@[t]) as int
                == code_of(views(names@), map@[t].block) by {
                lemma_code_of_index(views(names@), codes@[t] as int);
            }
        }
        (Palette { names }, codes)
    }

    /// The palette of a map.
    pub fn build(map: &VoxelMap) -> (palette: Palette)
        ensures
            palette@ == palette_of(blocks(map@)),
    {
        Palette::build_indexed(map).0
    }

    /// The number of identifiers, air included.
    pub fn len(&self) -> (n: usize)
        ensures
            n == self@.len(),
            n >= 1,
    {
        proof {
            use_type_invariant(self);
        }
        self.names.len()
    }

    /// The identifier with the given code.
    pub fn name(&self, code: usize) -> (name: &String)
        requires
            code < self@.len(),
        ensures
            name@ == self@[code as int],
    {
        &self.names[code]
    }

    /// The code of `name`, if the palette holds it.
    pub fn code(&self, name: &String) -> (code: Option<usize>)
        ensures
            match code {
                Some(c) => self@.contains(name@) && c as int == code_of(self@, name@),
                None => !self@.contains(name@),
            },
    {
        proof {
            use_type_invariant(self);
        }
        let found = find_name(&self.names, name);
        proof {
            if let Some(c) = found {
                lemma_code_of_index(self@, c as int);
            }
        }
        found
    }
}

/// The first index at which `name` stands in `names`.
fn find_name(names: &Vec<String>, name: &String) -> (found: Option<usize>)
    ensures
        match found {
            Some(i) => i < names@.len() && views(names@)[i as int] == name@,
            None => !views(names@).contains(name@),
        },
{
    let mut i: usize = 0;
    while i < names.len()
        invariant
            i <= names@.len(),
            forall|t: int| 0 <= t < i ==> views(names@)[t] != name@,
        decreases names@.len() - i,
    {
        if names[i] == *name {
            return Some(i);
        }
        i += 1;
    }
    None
}

} // verus!
