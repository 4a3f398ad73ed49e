//! Symbol and relocation tables, and the records built from them.
//!
//! A symbol table maps names to addresses with last-write-wins semantics: it
//! keeps its entries in insertion order and a lookup returns the address of
//! the latest entry with the given name. A relocation table maps names to
//! ordered lists of site offsets, accumulating the sites of repeated entries
//! under one name; its names are pairwise distinct.

use vstd::prelude::*;

verus! {

/// Address of the latest entry named `name`, or `None` when no entry has
/// that name.
pub open spec fn symbol_lookup(entries: Seq<(Seq<char>, u32)>, name: Seq<char>) -> Option<u32>
    decreases entries.len(),
{
    if entries.len() == 0 {
        None
    } else if entries.last().0 == name {
        Some(entries.last().1)
    } else {
        symbol_lookup(entries.drop_last(), name)
    }
}

/// A lookup in concatenated entries prefers the later part: the suffix
/// shadows the prefix wherever it defines the name.
pub proof fn lemma_lookup_concat(
    x: Seq<(Seq<char>, u32)>,
    y: Seq<(Seq<char>, u32)>,
    name: Seq<char>,
)
    ensures
        symbol_lookup(x + y, name) == if symbol_lookup(y, name) is Some {
            symbol_lookup(y, name)
        } else {
            symbol_lookup(x, name)
        },
    decreases y.len(),
{
    if y.len() == 0 {
        assert(x + y =~= x);
    } else {
        assert((x + y).drop_last() =~= x + y.drop_last());
        assert((x + y).last() == y.last());
        lemma_lookup_concat(x, y.drop_last(), name);
    }
}

/// A symbol table: named addresses in insertion order, where a later entry
/// shadows an earlier one with the same name.
#[derive(Debug)]
pub struct SymbolTable {
    entries: Vec<(String, u32)>,
}

impl View for SymbolTable {
    type V = Seq<(Seq<char>, u32)>;

    closed spec fn view(&self) -> Seq<(Seq<char>, u32)> {
        Seq::new(self.entries@.len(), |i: int| (self.entries@[i].0@, self.entries@[i].1))
    }
}

impl SymbolTable {
    /// An empty symbol table.
    pub fn new() -> (r: SymbolTable)
        ensures
            r@ == Seq::<(Seq<char>, u32)>::empty(),
    {
        let r = SymbolTable { entries: Vec::new() };
        proof {
            assert(r@ =~= Seq::<(Seq<char>, u32)>::empty());
        }
        r
    }

    /// Record `name` at `address`, shadowing any earlier entry with the
    /// same name.
    pub fn insert(&mut self, name: String, address: u32)
        ensures
            final(self)@ == old(self)@.push((name@, address)),
    {
        let ghost prev = self@;
        self.entries.push((name, address));
        proof {
            assert(self@ =~= prev.push((name@, address)));
        }
    }

    /// Address of the latest entry named `name`, if any.
    pub fn get(&self, name: &String) -> (r: Option<u32>)
        ensures
            r == symbol_lookup(self@, name@),
    {
        let mut i: usize = self.entries.len();
        proof {
            assert(self@.take(i as int) =~= self@);
        }
        while i > 0
            invariant
                i <= self.entries.len(),
                symbol_lookup(self@, name@) == symbol_lookup(self@.take(i as int), name@),
            decreases i,
        {
            i = i - 1;
            let entry = &self.entries[i];
            proof {
                assert(self@.take(i + 1).last() == (entry.0@, entry.1));
                assert(self@.take(i + 1).drop_last() =~= self@.take(i as int));
            }
            if entry.0.eq(name) {
                return Some(entry.1);
            }
        }
        proof {
            assert(self@.take(0) =~= Seq::<(Seq<char>, u32)>::empty());
        }
        None
    }

    /// Number of entries, shadowed ones included.
    pub fn len(&self) -> (r: usize)
        ensures
            r == self@.len(),
    {
        self.entries.len()
    }

    /// Name of the entry at `index`, in insertion order.
    pub fn name_at(&self, index: usize) -> (r: &String)
        requires
            index < self@.len(),
        ensures
            r@ == self@[index as int].0,
    {
        &self.entries[index].0
    }

    /// Address of the entry at `index`, in insertion order.
    pub fn address_at(&self, index: usize) -> (r: u32)
        requires
            index < self@.len(),
        ensures
            r == self@[index as int].1,
    {
        self.entries[index].1
    }
}

/// True when some entry is named `name`.
pub open spec fn has_entry(entries: Seq<(Seq<char>, Seq<u32>)>, name: Seq<char>) -> bool {
    exists|j: int| 0 <= j < entries.len() && entries[j].0 == name
}

/// The index of the entry named `name`, unique when the names are distinct.
pub open spec fn entry_index(entries: Seq<(Seq<char>, Seq<u32>)>, name: Seq<char>) -> int {
    choose|j: int| 0 <= j < entries.len() && entries[j].0 == name
}

/// The table after recording `sites` under `name`: appended to the existing
/// entry with that name, or as a new entry at the end. An entry's site list
/// is a non-empty ordered list, so recording no sites records nothing.
pub open spec fn add_sites(
    entries: Seq<(Seq<char>, Seq<u32>)>,
    name: Seq<char>,
    sites: Seq<u32>,
) -> Seq<(Seq<char>, Seq<u32>)> {
    if sites.len() == 0 {
        entries
    } else if has_entry(entries, name) {
        let j = entry_index(entries, name);
        entries.update(j, (name, entries[j].1 + sites))
    } else {
        entries.push((name, sites))
    }
}

/// The table after recording each entry of `raw` in order, accumulating the
/// sites of repeated names.
pub open spec fn record_all(
    acc: Seq<(Seq<char>, Seq<u32>)>,
    raw: Seq<(Seq<char>, Seq<u32>)>,
) -> Seq<(Seq<char>, Seq<u32>)>
    decreases raw.len(),
{
    if raw.len() == 0 {
        acc
    } else {
        add_sites(record_all(acc, raw.drop_last()), raw.last().0, raw.last().1)
    }
}

/// Names are pairwise distinct.
pub open spec fn distinct_names(entries: Seq<(Seq<char>, Seq<u32>)>) -> bool {
    forall|j: int, k: int| 0 <= j < k < entries.len() ==> entries[j].0 != entries[k].0
}

/// A relocation table: for each referenced name, the ordered list of code
/// offsets at which that name's resolved address must be written.
#[derive(Debug)]
pub struct RelocationTable {
    entries: Vec<(String, Vec<u32>)>,
}

impl View for RelocationTable {
    type V = Seq<(Seq<char>, Seq<u32>)>;

    closed spec fn view(&self) -> Seq<(Seq<char>, Seq<u32>)> {
        Seq::new(self.entries@.len(), |i: int| (self.entries@[i].0@, self.entries@[i].1@))
    }
}

impl RelocationTable {
    /// Names are pairwise distinct and every site list is non-empty;
    /// established by [`RelocationTable::new`] and preserved by
    /// [`RelocationTable::record`].
    pub open spec fn wf(&self) -> bool {
        distinct_names(self@) && forall|i: int| 0 <= i < self@.len() ==> self@[i].1.len() > 0
    }

    /// An empty relocation table.
    pub fn new() -> (r: RelocationTable)
        ensures
            r@ == Seq::<(Seq<char>, Seq<u32>)>::empty(),
            r.wf(),
    {
        let r = RelocationTable { entries: Vec::new() };
        proof {
            assert(r@ =~= Seq::<(Seq<char>, Seq<u32>)>::empty());
        }
        r
    }

    /// Record `sites` under `name`, accumulating with any sites already
    /// recorded for that name; recording no sites records nothing.
    pub fn record(&mut self, name: String, sites: Vec<u32>)
        requires
            old(self).wf(),
        ensures
            final(self)@ == add_sites(old(self)@, name@, sites@),
            final(self).wf(),
    {
        if sites.len() == 0 {
            return ;
        }
        let ghost prev = self@;
        let mut i: usize = 0;
        while i < self.entries.len()
            invariant
                i <= self.entries.len(),
                prev == old(self)@,
                self@ == prev,
                self.wf(),
                forall|j: int| 0 <= j < i ==> prev[j].0 != name@,
            decreases self.entries.len() - i,
        {
            if self.entries[i].0.eq(&name) {
                proof {
                    assert(has_entry(prev, name@));
                    let j = entry_index(prev, name@);
                    assert(0 <= j < prev.len() && prev[j].0 == name@);
                    assert(j == i) by {
                        if j < i {
                            assert(prev[j].0 != name@);
                        }
                        if j > i {
                            assert(prev[i as int].0 != prev[j].0);
                        }
                    }
                }
                let (entry_name, mut entry_sites) = self.entries.remove(i);
                let mut k: usize = 0;
                proof {
                    assert(prev[i as int].1 + sites@.take(0) =~= prev[i as int].1);
                }
                while k < sites.len()
                    invariant
                        k <= sites@.len(),
                        entry_sites@ == prev[i as int].1 + sites@.take(k as int),
                    decreases sites@.len() - k,
                {
                    entry_sites.push(sites[k]);
                    proof {
                        assert(prev[i as int].1 + sites@.take(k + 1) =~= (prev[i as int].1
                            + sites@.take(k as int)).push(sites@[k as int]));
                    }
                    k = k + 1;
                }
                self.entries.insert(i, (entry_name, entry_sites));
                proof {
                    assert(sites@.take(sites@.len() as int) =~= sites@);
                    assert(self@ =~= prev.update(i as int, (name@, prev[i as int].1 + sites@)));
                }
                return ;
            }
            i = i + 1;
        }
        proof {
            assert(!has_entry(prev, name@));
        }
        self.entries.push((name, sites));
        proof {
            assert(self@ =~= prev.push((name@, sites@)));
        }
    }

    /// Number of distinct referenced names.
    pub fn len(&self) -> (r: usize)
        ensures
            r == self@.len(),
    {
        self.entries.len()
    }

    /// Name of the entry at `index`, in first-reference order.
    pub fn name_at(&self, index: usize) -> (r: &String)
        requires
            index < self@.len(),
        ensures
            r@ == self@[index as int].0,
    {
        &self.entries[index].0
    }

    /// Sites of the entry at `index`, in the order they were recorded.
    pub fn sites_at(&self, index: usize) -> (r: &Vec<u32>)
        requires
            index < self@.len(),
        ensures
            r@ == self@[index as int].1,
    {
        &self.entries[index].1
    }
}

/// One decoded object file: its symbol table, its relocation table and its
/// raw code bytes, all in that file's local coordinates.
#[derive(Debug)]
pub struct ObjectFile {
    pub symbols: SymbolTable,
    pub relocations: RelocationTable,
    pub code: Vec<u8>,
}

/// Mathematical model of an [`ObjectFile`].
#[verifier::ext_equal]
pub ghost struct ObjectModel {
    pub symbols: Seq<(Seq<char>, u32)>,
    pub relocations: Seq<(Seq<char>, Seq<u32>)>,
    pub code: Seq<u8>,
}

impl View for ObjectFile {
    type V = ObjectModel;

    open spec fn view(&self) -> ObjectModel {
        ObjectModel { symbols: self.symbols@, relocations: self.relocations@, code: self.code@ }
    }
}

impl ObjectFile {
    /// The relocation table keeps its names distinct.
    pub open spec fn wf(&self) -> bool {
        self.relocations.wf()
    }
}

/// The accumulated link unit: the symbol table, relocation table and code of
/// every object file folded in so far, in merged (global) coordinates. The
/// base address for the next file is the current code length.
#[derive(Debug)]
pub struct LinkUnit {
    pub symbols: SymbolTable,
    pub relocations: RelocationTable,
    pub code: Vec<u8>,
}

/// Mathematical model of a [`LinkUnit`].
#[verifier::ext_equal]
pub ghost struct UnitModel {
    pub symbols: Seq<(Seq<char>, u32)>,
    pub relocations: Seq<(Seq<char>, Seq<u32>)>,
    pub code: Seq<u8>,
}

impl View for LinkUnit {
    type V = UnitModel;

    open spec fn view(&self) -> UnitModel {
        UnitModel { symbols: self.symbols@, relocations: self.relocations@, code: self.code@ }
    }
}

/// The empty link unit, before any object file is folded in.
pub open spec fn empty_unit() -> UnitModel {
    UnitModel {
        symbols: Seq::empty(),
        relocations: Seq::empty(),
        code: Seq::empty(),
    }
}

impl LinkUnit {
    /// The relocation names are distinct and the code still fits the 32-bit
    /// address space of the format.
    pub open spec fn wf(&self) -> bool {
        self.relocations.wf() && self.code@.len() <= u32::MAX
    }

    /// An empty link unit.
    pub fn new() -> (r: LinkUnit)
        ensures
            r@ == empty_unit(),
            r.wf(),
    {
        let r = LinkUnit {
            symbols: SymbolTable::new(),
            relocations: RelocationTable::new(),
            code: Vec::new(),
        };
        proof {
            assert(r@ =~= empty_unit());
        }
        r
    }
}

} // verus!
