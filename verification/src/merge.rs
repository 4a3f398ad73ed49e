//! Folding decoded object files into one link unit.
//!
//! Files are processed strictly in input order. For each file, every symbol
//! address and every relocation site offset is rebased by the current base
//! address — the length of the code accumulated from earlier files — and the
//! file's code is appended. Symbol names are shared across files: a later
//! definition of a name shadows an earlier one, and a relocation in one file
//! may resolve to a symbol defined in another.

use crate::errors::{LinkError, LinkErrorModel};
use crate::tables::{record_all, LinkUnit, ObjectFile, ObjectModel, UnitModel};
use vstd::prelude::*;

verus! {

/// The symbol entries with `base` added to every address.
pub open spec fn rebase_symbols(entries: Seq<(Seq<char>, u32)>, base: int) -> Seq<
    (Seq<char>, u32),
> {
    entries.map(|i: int, e: (Seq<char>, u32)| (e.0, (e.1 + base) as u32))
}

/// Every rebased symbol address still fits in 32 bits.
pub open spec fn symbols_fit(entries: Seq<(Seq<char>, u32)>, base: int) -> bool {
    forall|i: int| 0 <= i < entries.len() ==> entries[i].1 + base <= u32::MAX
}

/// The site offsets with `base` added to each.
pub open spec fn rebase_sites(sites: Seq<u32>, base: int) -> Seq<u32> {
    sites.map(|i: int, s: u32| (s + base) as u32)
}

/// The relocation entries with `base` added to every site offset; the names
/// are left alone, as references to be resolved after all files are merged.
pub open spec fn rebase_relocations(entries: Seq<(Seq<char>, Seq<u32>)>, base: int) -> Seq<
    (Seq<char>, Seq<u32>),
> {
    entries.map(|i: int, e: (Seq<char>, Seq<u32>)| (e.0, rebase_sites(e.1, base)))
}

/// Every rebased site offset still fits in 32 bits.
pub open spec fn relocations_fit(entries: Seq<(Seq<char>, Seq<u32>)>, base: int) -> bool {
    forall|i: int, j: int|
        0 <= i < entries.len() && 0 <= j < entries[i].1.len() ==> entries[i].1[j] + base
            <= u32::MAX
}

/// Rebasing by zero changes nothing.
pub proof fn lemma_rebase_zero(entries: Seq<(Seq<char>, u32)>)
    ensures
        rebase_symbols(entries, 0) == entries,
{
    assert(rebase_symbols(entries, 0) =~= entries);
}

/// A lookup in rebased entries finds the same name, with its address
/// rebased; the rebased address fits when every address in the table does.
pub proof fn lemma_lookup_rebase(entries: Seq<(Seq<char>, u32)>, base: int, name: Seq<char>)
    requires
        symbols_fit(entries, base),
    ensures
        crate::tables::symbol_lookup(entries, name) matches Some(v) ==> (v + base <= u32::MAX
            && crate::tables::symbol_lookup(rebase_symbols(entries, base), name) == Some(
            ((v + base) as u32),
        )),
        crate::tables::symbol_lookup(entries, name) is None
            ==> crate::tables::symbol_lookup(rebase_symbols(entries, base), name) is None,
    decreases entries.len(),
{
    if entries.len() > 0 {
        assert(rebase_symbols(entries, base).drop_last() =~= rebase_symbols(
            entries.drop_last(),
            base,
        ));
        assert(rebase_symbols(entries, base).last() == (
            entries.last().0,
            (entries.last().1 + base) as u32,
        ));
        lemma_lookup_rebase(entries.drop_last(), base, name);
    }
}

/// The unit after folding in one decoded object file, with the base address
/// taken as the unit's code length: symbol entries are appended with rebased
/// addresses, relocation sites are rebased and recorded under their names,
/// and the code is appended. Fails when any rebased address, any rebased
/// site or the combined code length would exceed 32 bits.
pub open spec fn spec_merge(unit: UnitModel, obj: ObjectModel) -> Result<
    UnitModel,
    LinkErrorModel,
> {
    let base = unit.code.len() as int;
    if unit.code.len() + obj.code.len() > u32::MAX || !symbols_fit(obj.symbols, base)
        || !relocations_fit(obj.relocations, base) {
        Err(LinkErrorModel::ImageTooLarge)
    } else {
        Ok(
            UnitModel {
                symbols: unit.symbols + rebase_symbols(obj.symbols, base),
                relocations: record_all(unit.relocations, rebase_relocations(obj.relocations, base)),
                code: unit.code + obj.code,
            },
        )
    }
}

/// Folds one decoded object file into the link unit, rebasing its symbol
/// addresses and relocation sites by the unit's current code length and
/// appending its code. On failure the unit is left unchanged.
pub fn merge_object(unit: &mut LinkUnit, obj: &ObjectFile) -> (r: Result<(), LinkError>)
    requires
        old(unit).wf(),
    ensures
        final(unit).wf(),
        spec_merge(old(unit)@, obj@) matches Ok(u) ==> r is Ok && final(unit)@ == u,
        spec_merge(old(unit)@, obj@) is Err ==> (r matches Err(e) && e@
            == LinkErrorModel::ImageTooLarge && final(unit)@ == old(unit)@),
{
    let ghost base = old(unit)@.code.len() as int;
    let base32: u32 = unit.code.len() as u32;
    if obj.code.len() > (u32::MAX - base32) as usize {
        return Err(LinkError::ImageTooLarge);
    }
    let symbol_count = obj.symbols.len();
    let mut i: usize = 0;
    while i < symbol_count
        invariant
            symbol_count == obj.symbols@.len(),
            base32 == base,
            base == old(unit)@.code.len(),
            old(unit).wf(),
            unit@ == old(unit)@,
            unit.wf(),
            forall|j: int| 0 <= j < i ==> obj.symbols@[j].1 + base <= u32::MAX,
        decreases symbol_count - i,
    {
        if obj.symbols.address_at(i) > u32::MAX - base32 {
            return Err(LinkError::ImageTooLarge);
        }
        i = i + 1;
    }
    let relocation_count = obj.relocations.len();
    let mut i: usize = 0;
    while i < relocation_count
        invariant
            relocation_count == obj.relocations@.len(),
            base32 == base,
            base == old(unit)@.code.len(),
            old(unit).wf(),
            unit@ == old(unit)@,
            unit.wf(),
            forall|j: int, k: int|
                0 <= j < i && 0 <= k < obj.relocations@[j].1.len() ==> obj.relocations@[j].1[k]
                    + base <= u32::MAX,
        decreases relocation_count - i,
    {
        let sites = obj.relocations.sites_at(i);
        let site_count = sites.len();
        let mut k: usize = 0;
        while k < site_count
            invariant
                site_count == sites@.len(),
                sites@ == obj.relocations@[i as int].1,
                0 <= i < obj.relocations@.len(),
                base32 == base,
                base == old(unit)@.code.len(),
                old(unit).wf(),
                unit@ == old(unit)@,
                unit.wf(),
                forall|m: int| 0 <= m < k ==> sites@[m] + base <= u32::MAX,
            decreases site_count - k,
        {
            if sites[k] > u32::MAX - base32 {
                return Err(LinkError::ImageTooLarge);
            }
            k = k + 1;
        }
        i = i + 1;
    }
    proof {
        assert(symbols_fit(obj@.symbols, base));
        assert(relocations_fit(obj@.relocations, base));
    }
    // All rebased values fit: commit the merge.
    let mut i: usize = 0;
    while i < symbol_count
        invariant
            i <= symbol_count,
            symbol_count == obj.symbols@.len(),
            base32 == base,
            base == old(unit)@.code.len(),
            old(unit).wf(),
            symbols_fit(obj@.symbols, base),
            unit.symbols@ == old(unit)@.symbols + rebase_symbols(obj.symbols@.take(i as int), base),
            unit.relocations@ == old(unit)@.relocations,
            unit.code@ == old(unit)@.code,
        decreases symbol_count - i,
    {
        let name = obj.symbols.name_at(i).clone();
        let address = obj.symbols.address_at(i) + base32;
        unit.symbols.insert(name, address);
        proof {
            assert(rebase_symbols(obj.symbols@.take(i + 1), base) =~= rebase_symbols(
                obj.symbols@.take(i as int),
                base,
            ).push((obj.symbols@[i as int].0, (obj.symbols@[i as int].1 + base) as u32)));
            assert(unit.symbols@ =~= old(unit)@.symbols + rebase_symbols(
                obj.symbols@.take(i + 1),
                base,
            ));
        }
        i = i + 1;
    }
    proof {
        assert(obj.symbols@.take(symbol_count as int) =~= obj.symbols@);
    }
    let ghost rebased = rebase_relocations(obj@.relocations, base);
    let mut i: usize = 0;
    while i < relocation_count
        invariant
            i <= relocation_count,
            relocation_count == obj.relocations@.len(),
            base32 == base,
            base == old(unit)@.code.len(),
            old(unit).wf(),
            relocations_fit(obj@.relocations, base),
            rebased == rebase_relocations(obj@.relocations, base),
            unit.symbols@ == old(unit)@.symbols + rebase_symbols(obj.symbols@, base),
            unit.relocations@ == record_all(old(unit)@.relocations, rebased.take(i as int)),
            unit.relocations.wf(),
            unit.code@ == old(unit)@.code,
        decreases relocation_count - i,
    {
        let name = obj.relocations.name_at(i).clone();
        let sites = obj.relocations.sites_at(i);
        let site_count = sites.len();
        let mut rebased_sites: Vec<u32> = Vec::new();
        let mut k: usize = 0;
        proof {
            assert(rebased_sites@ =~= rebase_sites(sites@.take(0), base));
        }
        while k < site_count
            invariant
                k <= site_count,
                site_count == sites@.len(),
                sites@ == obj.relocations@[i as int].1,
                0 <= i < obj.relocations@.len(),
                base32 == base,
                relocations_fit(obj@.relocations, base),
                rebased_sites@ == rebase_sites(sites@.take(k as int), base),
            decreases site_count - k,
        {
            rebased_sites.push(sites[k] + base32);
            proof {
                assert(rebase_sites(sites@.take(k + 1), base) =~= rebase_sites(
                    sites@.take(k as int),
                    base,
                ).push(((sites@[k as int] + base) as u32)));
            }
            k = k + 1;
        }
        proof {
            assert(sites@.take(site_count as int) =~= sites@);
        }
        unit.relocations.record(name, rebased_sites);
        proof {
            assert(rebased.take(i + 1).drop_last() =~= rebased.take(i as int));
            assert(rebased.take(i + 1).last() == rebased[i as int]);
            assert(rebased[i as int] == (obj.relocations@[i as int].0, rebase_sites(
                obj.relocations@[i as int].1,
                base,
            )));
        }
        i = i + 1;
    }
    proof {
        assert(rebased.take(relocation_count as int) =~= rebased);
    }
    let code_len = obj.code.len();
    let mut k: usize = 0;
    while k < code_len
        invariant
            k <= code_len,
            code_len == obj.code@.len(),
            base == old(unit)@.code.len(),
            old(unit)@.code.len() + obj.code@.len() <= u32::MAX,
            old(unit).wf(),
            symbols_fit(obj@.symbols, base),
            relocations_fit(obj@.relocations, base),
            unit.symbols@ == old(unit)@.symbols + rebase_symbols(obj.symbols@, base),
            unit.relocations@ == record_all(
                old(unit)@.relocations,
                rebase_relocations(obj@.relocations, base),
            ),
            unit.relocations.wf(),
            unit.code@ == old(unit)@.code + obj.code@.take(k as int),
        decreases code_len - k,
    {
        unit.code.push(obj.code[k]);
        proof {
            assert(old(unit)@.code + obj.code@.take(k + 1) =~= (old(unit)@.code
                + obj.code@.take(k as int)).push(obj.code@[k as int]));
        }
        k = k + 1;
    }
    proof {
        assert(obj.code@.take(code_len as int) =~= obj.code@);
        assert(unit@ =~~= spec_merge(old(unit)@, obj@)->Ok_0);
    }
    Ok(())
}

} // verus!
