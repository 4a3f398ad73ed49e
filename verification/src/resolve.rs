//! Resolving relocations: patching every site with its symbol's address.
//!
//! For each name in the relocation table, the resolver looks the name up in
//! the merged symbol table. A resolved name has its address written, as four
//! little-endian bytes, at every site recorded for it; an unresolved name is
//! collected, and after all names are processed the whole operation fails
//! with the aggregated list. Patches are applied even when other names are
//! unresolved; the caller writes no output on failure.

use crate::errors::{LinkError, LinkErrorModel};
use crate::tables::{symbol_lookup, RelocationTable, SymbolTable};
use vstd::bytes::{spec_u32_to_le_bytes, u32_to_le_bytes};
use vstd::prelude::*;

verus! {

/// `code` with the little-endian bytes of `value` written at
/// `site .. site + 4`.
pub open spec fn patch_u32(code: Seq<u8>, site: int, value: u32) -> Seq<u8> {
    Seq::new(
        code.len(),
        |i: int|
            if site <= i < site + 4 {
                spec_u32_to_le_bytes(value)[i - site]
            } else {
                code[i]
            },
    )
}

/// `code` after patching `value` at each of `sites`, in order.
pub open spec fn patch_sites(code: Seq<u8>, sites: Seq<u32>, value: u32) -> Seq<u8>
    decreases sites.len(),
{
    if sites.len() == 0 {
        code
    } else {
        patch_u32(patch_sites(code, sites.drop_last(), value), sites.last() as int, value)
    }
}

/// `code` after one relocation entry: patched at every site when its name
/// resolves, untouched when it does not.
pub open spec fn patch_entry(
    code: Seq<u8>,
    entry: (Seq<char>, Seq<u32>),
    symbols: Seq<(Seq<char>, u32)>,
) -> Seq<u8> {
    match symbol_lookup(symbols, entry.0) {
        Some(address) => patch_sites(code, entry.1, address),
        None => code,
    }
}

/// `code` after every relocation entry, in table order.
pub open spec fn apply_entries(
    code: Seq<u8>,
    entries: Seq<(Seq<char>, Seq<u32>)>,
    symbols: Seq<(Seq<char>, u32)>,
) -> Seq<u8>
    decreases entries.len(),
{
    if entries.len() == 0 {
        code
    } else {
        patch_entry(apply_entries(code, entries.drop_last(), symbols), entries.last(), symbols)
    }
}

/// Every site leaves room for a 4-byte patch inside code of length `len`.
pub open spec fn sites_in_range(sites: Seq<u32>, len: int) -> bool {
    forall|j: int| 0 <= j < sites.len() ==> sites[j] + 4 <= len
}

/// Every site of every entry whose name resolves is in range; sites of
/// unresolved names are never patched, so they need not be.
pub open spec fn resolved_sites_ok(
    entries: Seq<(Seq<char>, Seq<u32>)>,
    symbols: Seq<(Seq<char>, u32)>,
    len: int,
) -> bool {
    forall|i: int|
        0 <= i < entries.len() && symbol_lookup(symbols, #[trigger] entries[i].0) is Some
            ==> sites_in_range(entries[i].1, len)
}

/// `site` belongs to an entry whose name resolves and does not leave room
/// for a 4-byte patch.
pub open spec fn is_unpatchable_site(
    entries: Seq<(Seq<char>, Seq<u32>)>,
    symbols: Seq<(Seq<char>, u32)>,
    len: int,
    site: u32,
) -> bool {
    exists|i: int, j: int|
        0 <= i < entries.len() && 0 <= j < entries[i].1.len() && symbol_lookup(
            symbols,
            entries[i].0,
        ) is Some && entries[i].1[j] == site && site + 4 > len
}

/// The names of the entries whose name has no definition, in table order.
pub open spec fn unresolved_names(
    entries: Seq<(Seq<char>, Seq<u32>)>,
    symbols: Seq<(Seq<char>, u32)>,
) -> Seq<Seq<char>>
    decreases entries.len(),
{
    if entries.len() == 0 {
        Seq::empty()
    } else {
        let prefix = unresolved_names(entries.drop_last(), symbols);
        if symbol_lookup(symbols, entries.last().0) is None {
            prefix.push(entries.last().0)
        } else {
            prefix
        }
    }
}

/// Writes the little-endian bytes of `value` at `site .. site + 4`.
fn write_u32(code: &mut Vec<u8>, site: usize, value: u32)
    requires
        site + 4 <= old(code)@.len(),
    ensures
        final(code)@ == patch_u32(old(code)@, site as int, value),
{
    let n = code.len();
    proof {
        assert(site + 4 <= n);
    }
    let bytes = u32_to_le_bytes(value);
    code[site] = bytes[0];
    code[site + 1] = bytes[1];
    code[site + 2] = bytes[2];
    code[site + 3] = bytes[3];
    proof {
        assert(code@ =~= patch_u32(old(code)@, site as int, value));
    }
}

/// Patches every relocation site of every resolved name with that name's
/// address, in table order, and aggregates the names that have no
/// definition. When a resolved site leaves no room for a 4-byte patch the
/// code is left untouched; otherwise all patches are applied, and the call
/// succeeds exactly when every name resolved.
pub fn apply_relocations(
    code: &mut Vec<u8>,
    symbols: &SymbolTable,
    relocations: &RelocationTable,
) -> (r: Result<(), LinkError>)
    ensures
        resolved_sites_ok(relocations@, symbols@, old(code)@.len() as int) ==> final(code)@
            == apply_entries(old(code)@, relocations@, symbols@),
        !resolved_sites_ok(relocations@, symbols@, old(code)@.len() as int) ==> ({
            &&& final(code)@ == old(code)@
            &&& r matches Err(e) && e@ matches LinkErrorModel::SiteOutOfRange { site }
                && is_unpatchable_site(relocations@, symbols@, old(code)@.len() as int, site)
        }),
        (r is Ok) == (resolved_sites_ok(relocations@, symbols@, old(code)@.len() as int)
            && unresolved_names(relocations@, symbols@).len() == 0),
        (resolved_sites_ok(relocations@, symbols@, old(code)@.len() as int) && unresolved_names(
            relocations@,
            symbols@,
        ).len() > 0) ==> (r matches Err(e) && e@ == LinkErrorModel::Unresolved {
            names: unresolved_names(relocations@, symbols@),
        }),
{
    let entry_count = relocations.len();
    let code_len = code.len();
    // First pass: no site of a resolved name may run past the end of the code.
    let mut i: usize = 0;
    while i < entry_count
        invariant
            i <= entry_count,
            entry_count == relocations@.len(),
            code_len == code@.len(),
            code@ == old(code)@,
            forall|p: int|
                0 <= p < i && symbol_lookup(symbols@, #[trigger] relocations@[p].0) is Some
                    ==> sites_in_range(relocations@[p].1, code@.len() as int),
        decreases entry_count - i,
    {
        let name = relocations.name_at(i);
        if symbols.get(name).is_some() {
            let sites = relocations.sites_at(i);
            let site_count = sites.len();
            let mut j: usize = 0;
            while j < site_count
                invariant
                    j <= site_count,
                    site_count == sites@.len(),
                    sites@ == relocations@[i as int].1,
                    0 <= i < relocations@.len(),
                    code_len == code@.len(),
                    code@ == old(code)@,
                    symbol_lookup(symbols@, relocations@[i as int].0) is Some,
                    forall|m: int| 0 <= m < j ==> sites@[m] + 4 <= code@.len(),
                decreases site_count - j,
            {
                let site = sites[j];
                if site as usize > code_len || code_len - (site as usize) < 4 {
                    proof {
                        assert(is_unpatchable_site(
                            relocations@,
                            symbols@,
                            old(code)@.len() as int,
                            site,
                        ));
                        assert(!resolved_sites_ok(relocations@, symbols@, old(code)@.len() as int));
                    }
                    return Err(LinkError::SiteOutOfRange { site });
                }
                j = j + 1;
            }
        }
        i = i + 1;
    }
    proof {
        assert(resolved_sites_ok(relocations@, symbols@, old(code)@.len() as int));
    }
    // Second pass: patch every resolved site, collect every unresolved name.
    let mut unresolved: Vec<String> = Vec::new();
    let mut i: usize = 0;
    proof {
        assert(code@ =~= apply_entries(old(code)@, relocations@.take(0), symbols@));
        assert(unresolved.deep_view() =~~= unresolved_names(relocations@.take(0), symbols@));
    }
    while i < entry_count
        invariant
            i <= entry_count,
            entry_count == relocations@.len(),
            code_len == old(code)@.len(),
            code@.len() == old(code)@.len(),
            resolved_sites_ok(relocations@, symbols@, old(code)@.len() as int),
            code@ == apply_entries(old(code)@, relocations@.take(i as int), symbols@),
            unresolved.deep_view() == unresolved_names(relocations@.take(i as int), symbols@),
        decreases entry_count - i,
    {
        let ghost code_before = code@;
        let ghost unresolved_before = unresolved.deep_view();
        let name = relocations.name_at(i);
        match symbols.get(name) {
            Some(address) => {
                let sites = relocations.sites_at(i);
                let site_count = sites.len();
                let mut j: usize = 0;
                proof {
                    assert(code@ =~= patch_sites(code_before, sites@.take(0), address));
                }
                while j < site_count
                    invariant
                        j <= site_count,
                        site_count == sites@.len(),
                        sites@ == relocations@[i as int].1,
                        0 <= i < relocations@.len(),
                        symbol_lookup(symbols@, relocations@[i as int].0) == Some(address),
                        resolved_sites_ok(relocations@, symbols@, old(code)@.len() as int),
                        code_len == old(code)@.len(),
                        code_before.len() == old(code)@.len(),
                        code@.len() == old(code)@.len(),
                        code@ == patch_sites(code_before, sites@.take(j as int), address),
                    decreases site_count - j,
                {
                    let site = sites[j];
                    write_u32(code, site as usize, address);
                    proof {
                        assert(sites@.take(j + 1).drop_last() =~= sites@.take(j as int));
                    }
                    j = j + 1;
                }
                proof {
                    assert(sites@.take(site_count as int) =~= sites@);
                    assert(relocations@.take(i + 1).drop_last() =~= relocations@.take(i as int));
                    assert(code@ == patch_entry(code_before, relocations@[i as int], symbols@));
                    assert(unresolved.deep_view() == unresolved_names(
                        relocations@.take(i + 1),
                        symbols@,
                    ));
                }
            },
            None => {
                unresolved.push(name.clone());
                proof {
                    assert(relocations@.take(i + 1).drop_last() =~= relocations@.take(i as int));
                    assert(unresolved.deep_view() =~~= unresolved_before.push(
                        relocations@[i as int].0,
                    ));
                }
            },
        }
        i = i + 1;
    }
    proof {
        assert(relocations@.take(entry_count as int) =~= relocations@);
    }
    if unresolved.len() == 0 {
        proof {
            assert(unresolved_names(relocations@, symbols@).len() == 0);
        }
        Ok(())
    } else {
        Err(LinkError::Unresolved { names: unresolved })
    }
}

/// Patching never changes the length of the code.
pub proof fn lemma_patch_sites_len(code: Seq<u8>, sites: Seq<u32>, value: u32)
    ensures
        patch_sites(code, sites, value).len() == code.len(),
    decreases sites.len(),
{
    if sites.len() > 0 {
        lemma_patch_sites_len(code, sites.drop_last(), value);
    }
}

/// Applying relocation entries never changes the length of the code.
pub proof fn lemma_apply_entries_len(
    code: Seq<u8>,
    entries: Seq<(Seq<char>, Seq<u32>)>,
    symbols: Seq<(Seq<char>, u32)>,
)
    ensures
        apply_entries(code, entries, symbols).len() == code.len(),
    decreases entries.len(),
{
    if entries.len() > 0 {
        let prev = apply_entries(code, entries.drop_last(), symbols);
        lemma_apply_entries_len(code, entries.drop_last(), symbols);
        match symbol_lookup(symbols, entries.last().0) {
            Some(address) => lemma_patch_sites_len(prev, entries.last().1, address),
            None => {},
        }
    }
}

/// Patching at sites whose 4-byte windows avoid `s .. s + 4` leaves the
/// bytes there unchanged.
pub proof fn lemma_patch_sites_disjoint(code: Seq<u8>, sites: Seq<u32>, value: u32, s: int)
    requires
        forall|j: int| 0 <= j < sites.len() ==> sites[j] + 4 <= s || sites[j] >= s + 4,
    ensures
        forall|i: int|
            s <= i < s + 4 && 0 <= i < code.len() ==> patch_sites(code, sites, value)[i]
                == code[i],
    decreases sites.len(),
{
    if sites.len() > 0 {
        lemma_patch_sites_disjoint(code, sites.drop_last(), value, s);
        lemma_patch_sites_len(code, sites.drop_last(), value);
    }
}

/// Patching sets the bytes at `s .. s + 4` to the little-endian value when
/// `s` is among the sites and every site either equals `s` or patches a
/// window disjoint from it.
pub proof fn lemma_patch_sites_sets(code: Seq<u8>, sites: Seq<u32>, value: u32, s: int)
    requires
        s + 4 <= code.len(),
        exists|j: int| 0 <= j < sites.len() && sites[j] == s,
        forall|j: int| 0 <= j < sites.len() ==> sites[j] == s || sites[j] + 4 <= s || sites[j] >= s
            + 4,
    ensures
        patch_sites(code, sites, value).subrange(s, s + 4) == spec_u32_to_le_bytes(value),
    decreases sites.len(),
{
    vstd::bytes::lemma_auto_spec_u32_to_from_le_bytes();
    let prev = patch_sites(code, sites.drop_last(), value);
    lemma_patch_sites_len(code, sites.drop_last(), value);
    lemma_patch_sites_len(code, sites, value);
    if sites.last() == s {
        assert(patch_sites(code, sites, value).subrange(s, s + 4) =~= spec_u32_to_le_bytes(value));
    } else {
        let j = choose|j: int| 0 <= j < sites.len() && sites[j] == s;
        assert(0 <= j < sites.len() - 1);
        assert(sites.drop_last()[j] == s);
        lemma_patch_sites_sets(code, sites.drop_last(), value, s);
        assert(patch_sites(code, sites, value).subrange(s, s + 4) =~= prev.subrange(s, s + 4));
    }
}

/// Patch correctness: when a relocation entry's name resolves to `address`
/// and `s` is one of its sites, and every other resolved site either is the
/// same site patched with the same address or patches a window disjoint from
/// `s .. s + 4`, then after all entries are applied the four bytes at `s`
/// are the little-endian encoding of `address`.
pub proof fn lemma_patch_correctness(
    code: Seq<u8>,
    entries: Seq<(Seq<char>, Seq<u32>)>,
    symbols: Seq<(Seq<char>, u32)>,
    i: int,
    j: int,
    address: u32,
)
    requires
        0 <= i < entries.len(),
        0 <= j < entries[i].1.len(),
        symbol_lookup(symbols, entries[i].0) == Some(address),
        entries[i].1[j] + 4 <= code.len(),
        forall|p: int, q: int|
            #![trigger entries[p].1[q]]
            0 <= p < entries.len() && 0 <= q < entries[p].1.len() && symbol_lookup(
                symbols,
                entries[p].0,
            ) is Some ==> {
                ||| (entries[p].1[q] == entries[i].1[j] && symbol_lookup(symbols, entries[p].0)
                    == Some(address))
                ||| entries[p].1[q] + 4 <= entries[i].1[j]
                ||| entries[p].1[q] >= entries[i].1[j] + 4
            },
    ensures
        apply_entries(code, entries, symbols).subrange(
            entries[i].1[j] as int,
            entries[i].1[j] + 4,
        ) == spec_u32_to_le_bytes(address),
    decreases entries.len(),
{
    let s = entries[i].1[j] as int;
    let prev = apply_entries(code, entries.drop_last(), symbols);
    lemma_apply_entries_len(code, entries.drop_last(), symbols);
    lemma_apply_entries_len(code, entries, symbols);
    if i == entries.len() - 1 {
        assert(exists|q: int| 0 <= q < entries[i].1.len() && entries[i].1[q] == s) by {
            assert(entries[i].1[j] == s);
        }
        lemma_patch_sites_sets(prev, entries[i].1, address, s);
        assert(entries.last() == entries[i]);
    } else {
        lemma_patch_correctness(code, entries.drop_last(), symbols, i, j, address);
        assert(entries.drop_last()[i] == entries[i]);
        let last = entries.last();
        match symbol_lookup(symbols, last.0) {
            Some(last_address) => {
                let p = entries.len() - 1;
                if exists|q: int| 0 <= q < last.1.len() && last.1[q] == s {
                    let q = choose|q: int| 0 <= q < last.1.len() && last.1[q] == s;
                    assert(last_address == address);
                    lemma_patch_sites_sets(prev, last.1, address, s);
                } else {
                    assert(forall|q: int| 0 <= q < last.1.len() ==> last.1[q] + 4 <= s || last.1[q]
                        >= s + 4);
                    lemma_patch_sites_disjoint(prev, last.1, last_address, s);
                    assert(apply_entries(code, entries, symbols).subrange(s, s + 4) =~= prev
                        .subrange(s, s + 4));
                }
            },
            None => {},
        }
    }
}

/// A 4-byte window that no resolved site patches is left untouched by the
/// whole resolution pass.
pub proof fn lemma_untouched_window(
    code: Seq<u8>,
    entries: Seq<(Seq<char>, Seq<u32>)>,
    symbols: Seq<(Seq<char>, u32)>,
    s: int,
)
    requires
        0 <= s,
        s + 4 <= code.len(),
        forall|p: int, q: int|
            #![trigger entries[p].1[q]]
            0 <= p < entries.len() && 0 <= q < entries[p].1.len() && symbol_lookup(
                symbols,
                entries[p].0,
            ) is Some ==> entries[p].1[q] + 4 <= s || entries[p].1[q] >= s + 4,
    ensures
        apply_entries(code, entries, symbols).subrange(s, s + 4) == code.subrange(s, s + 4),
    decreases entries.len(),
{
    if entries.len() > 0 {
        let prev = apply_entries(code, entries.drop_last(), symbols);
        lemma_apply_entries_len(code, entries.drop_last(), symbols);
        lemma_apply_entries_len(code, entries, symbols);
        lemma_untouched_window(code, entries.drop_last(), symbols, s);
        let last = entries.last();
        match symbol_lookup(symbols, last.0) {
            Some(address) => {
                assert(forall|q: int|
                    0 <= q < last.1.len() ==> last.1[q] + 4 <= s || last.1[q] >= s + 4);
                lemma_patch_sites_disjoint(prev, last.1, address, s);
                assert(apply_entries(code, entries, symbols).subrange(s, s + 4) =~= prev.subrange(
                    s,
                    s + 4,
                ));
            },
            None => {},
        }
    }
}

/// An unresolved name appears in the aggregated list and none of its sites
/// is patched: the bytes of each of its 4-byte windows are left exactly as
/// they were, provided no resolved site's window overlaps that window.
pub proof fn lemma_unresolved_name_untouched(
    code: Seq<u8>,
    entries: Seq<(Seq<char>, Seq<u32>)>,
    symbols: Seq<(Seq<char>, u32)>,
    i: int,
    j: int,
)
    requires
        0 <= i < entries.len(),
        symbol_lookup(symbols, entries[i].0) is None,
        0 <= j < entries[i].1.len(),
        entries[i].1[j] + 4 <= code.len(),
        forall|p: int, q: int|
            #![trigger entries[p].1[q]]
            0 <= p < entries.len() && 0 <= q < entries[p].1.len() && symbol_lookup(
                symbols,
                entries[p].0,
            ) is Some ==> entries[p].1[q] + 4 <= entries[i].1[j] || entries[p].1[q]
                >= entries[i].1[j] + 4,
    ensures
        unresolved_names(entries, symbols).contains(entries[i].0),
        apply_entries(code, entries, symbols).subrange(
            entries[i].1[j] as int,
            entries[i].1[j] + 4,
        ) == code.subrange(entries[i].1[j] as int, entries[i].1[j] + 4),
{
    lemma_unresolved_complete(entries, symbols, i);
    lemma_untouched_window(code, entries, symbols, entries[i].1[j] as int);
}

/// Aggregated failure: two distinct undefined names both appear in the one
/// aggregated list of unresolved names, which therefore reports more than
/// the first failure.
pub proof fn lemma_aggregated_failure(
    entries: Seq<(Seq<char>, Seq<u32>)>,
    symbols: Seq<(Seq<char>, u32)>,
    i: int,
    j: int,
)
    requires
        0 <= i < entries.len(),
        0 <= j < entries.len(),
        symbol_lookup(symbols, entries[i].0) is None,
        symbol_lookup(symbols, entries[j].0) is None,
        entries[i].0 != entries[j].0,
    ensures
        unresolved_names(entries, symbols).contains(entries[i].0),
        unresolved_names(entries, symbols).contains(entries[j].0),
        unresolved_names(entries, symbols).len() >= 2,
{
    lemma_unresolved_complete(entries, symbols, i);
    lemma_unresolved_complete(entries, symbols, j);
    let u = unresolved_names(entries, symbols);
    let k1 = choose|k: int| 0 <= k < u.len() && u[k] == entries[i].0;
    let k2 = choose|k: int| 0 <= k < u.len() && u[k] == entries[j].0;
    assert(k1 != k2);
}

/// Aggregated failure is complete: every referenced name with no definition
/// in the symbol table appears in the aggregated list of unresolved names.
pub proof fn lemma_unresolved_complete(
    entries: Seq<(Seq<char>, Seq<u32>)>,
    symbols: Seq<(Seq<char>, u32)>,
    i: int,
)
    requires
        0 <= i < entries.len(),
        symbol_lookup(symbols, entries[i].0) is None,
    ensures
        unresolved_names(entries, symbols).contains(entries[i].0),
    decreases entries.len(),
{
    let names = unresolved_names(entries, symbols);
    if i == entries.len() - 1 {
        let prefix = unresolved_names(entries.drop_last(), symbols);
        assert(names == prefix.push(entries[i].0));
        assert(names[names.len() - 1] == entries[i].0);
    } else {
        lemma_unresolved_complete(entries.drop_last(), symbols, i);
        let prefix = unresolved_names(entries.drop_last(), symbols);
        let k = choose|k: int| 0 <= k < prefix.len() && prefix[k] == entries.drop_last()[i].0;
        assert(entries.drop_last()[i] == entries[i]);
        assert(names[k] == entries[i].0);
    }
}

} // verus!
