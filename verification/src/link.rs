//! The whole link: decode every buffer, merge in order, resolve.
//!
//! The caller hands the linker the input buffers in command-line order and
//! receives the final flat image, or the first fatal error: a decode error
//! names the failing file, an unresolved-symbol error aggregates every
//! missing name. Order is significant: the base address of each file is the
//! total code length of the files before it, so the same inputs in the same
//! order give a byte-identical image.

use crate::decode::{decode_object, spec_decode};
use crate::errors::{LinkError, LinkErrorModel};
use crate::merge::{merge_object, spec_merge};
use crate::resolve::{
    apply_entries, apply_relocations, is_unpatchable_site, resolved_sites_ok, unresolved_names,
};
use crate::tables::{empty_unit, LinkUnit, ObjectFile, ObjectModel, UnitModel};
use vstd::prelude::*;

verus! {

/// The models of a sequence of decoded object files.
pub open spec fn object_models(objects: Seq<ObjectFile>) -> Seq<ObjectModel> {
    objects.map(|i: int, o: ObjectFile| o@)
}

/// The unit obtained by folding the objects into the empty unit in order,
/// or the first failure.
pub open spec fn spec_merge_objects(objs: Seq<ObjectModel>) -> Result<UnitModel, LinkErrorModel>
    decreases objs.len(),
{
    if objs.len() == 0 {
        Ok(empty_unit())
    } else {
        match spec_merge_objects(objs.drop_last()) {
            Ok(unit) => spec_merge(unit, objs.last()),
            Err(e) => Err(e),
        }
    }
}

/// Merges a sequence of decoded object files, in the order given, into one
/// link unit. On failure, which unit states were reached is not observable:
/// only the error is returned.
pub fn merge_objects(objects: &Vec<ObjectFile>) -> (r: Result<LinkUnit, LinkError>)
    ensures
        spec_merge_objects(object_models(objects@)) matches Ok(u) ==> (r matches Ok(unit)
            && unit@ == u && unit.wf()),
        spec_merge_objects(object_models(objects@)) matches Err(e) ==> (r matches Err(le) && le@
            == e),
{
    let ghost models = object_models(objects@);
    let mut unit = LinkUnit::new();
    let count = objects.len();
    let mut i: usize = 0;
    proof {
        assert(models.take(0) =~= Seq::<ObjectModel>::empty());
    }
    while i < count
        invariant
            i <= count,
            count == objects@.len(),
            models == object_models(objects@),
            unit.wf(),
            spec_merge_objects(models.take(i as int)) == Ok::<UnitModel, LinkErrorModel>(unit@),
        decreases count - i,
    {
        let ghost unit_before = unit@;
        let r = merge_object(&mut unit, &objects[i]);
        proof {
            assert(models.take(i + 1).drop_last() =~= models.take(i as int));
            assert(models.take(i + 1).last() == objects@[i as int]@);
        }
        match r {
            Ok(()) => {},
            Err(e) => {
                proof {
                    assert(spec_merge_objects(models.take(i + 1)) == spec_merge(
                        unit_before,
                        objects@[i as int]@,
                    ));
                    lemma_merge_objects_error_persists(models, i + 1);
                }
                return Err(e);
            },
        }
        i = i + 1;
    }
    proof {
        assert(models.take(count as int) =~= models);
    }
    Ok(unit)
}

/// Once a prefix of the objects fails to merge, the whole sequence fails
/// with the same error.
proof fn lemma_merge_objects_error_persists(objs: Seq<ObjectModel>, i: int)
    requires
        0 <= i <= objs.len(),
        spec_merge_objects(objs.take(i)) is Err,
    ensures
        spec_merge_objects(objs) == spec_merge_objects(objs.take(i)),
    decreases objs.len() - i,
{
    if i < objs.len() {
        assert(objs.take(i + 1).drop_last() =~= objs.take(i));
        lemma_merge_objects_error_persists(objs, i + 1);
    } else {
        assert(objs.take(i) =~= objs);
    }
}

/// The image linked from a sequence of decoded object files: the objects are
/// merged in order and every relocation site is patched. `Ok` exactly when
/// the merged addresses fit, every resolved site is patchable and every
/// referenced name has a definition.
pub fn link_objects(objects: Vec<ObjectFile>) -> (r: Result<Vec<u8>, LinkError>)
    ensures
        spec_merge_objects(object_models(objects@)) matches Err(e) ==> (r matches Err(le) && le@
            == e),
        spec_merge_objects(object_models(objects@)) matches Ok(u) ==> {
            &&& (r is Ok) == (resolved_sites_ok(u.relocations, u.symbols, u.code.len() as int)
                && unresolved_names(u.relocations, u.symbols).len() == 0)
            &&& r matches Ok(image) ==> image@ == apply_entries(u.code, u.relocations, u.symbols)
            &&& (resolved_sites_ok(u.relocations, u.symbols, u.code.len() as int)
                && unresolved_names(u.relocations, u.symbols).len() > 0) ==> (r matches Err(e)
                && e@ == LinkErrorModel::Unresolved {
                    names: unresolved_names(u.relocations, u.symbols),
                })
            &&& !resolved_sites_ok(u.relocations, u.symbols, u.code.len() as int) ==> (r matches
                Err(e) && e@ matches LinkErrorModel::SiteOutOfRange { site }
                && is_unpatchable_site(u.relocations, u.symbols, u.code.len() as int, site))
        },
{
    let unit = match merge_objects(&objects) {
        Ok(u) => u,
        Err(e) => {
            return Err(e);
        },
    };
    let LinkUnit { symbols, relocations, mut code } = unit;
    match apply_relocations(&mut code, &symbols, &relocations) {
        Ok(()) => Ok(code),
        Err(e) => Err(e),
    }
}

/// The image linked from raw object-file buffers, in the order given: each
/// buffer is decoded, the records are merged in order, and every relocation
/// site is patched. A buffer that fails to decode aborts the whole link and
/// the error names that file's position.
pub fn link_buffers(buffers: &Vec<Vec<u8>>) -> (r: Result<Vec<u8>, LinkError>)
    ensures
        (exists|i: int| 0 <= i < buffers@.len() && spec_decode(buffers@[i]@) is Err) ==> (r matches
            Err(e) && e@ matches LinkErrorModel::Decode { file, error } && 0 <= file
            < buffers@.len() && spec_decode(buffers@[file]@) == Err::<ObjectModel, crate::errors::DecodeError>(error)
            && (forall|j: int| 0 <= j < file ==> spec_decode(buffers@[j]@) is Ok)),
        (forall|i: int| 0 <= i < buffers@.len() ==> spec_decode(#[trigger] buffers@[i]@) is Ok)
            ==> ({
            let models = Seq::new(buffers@.len(), |i: int| spec_decode(buffers@[i]@)->Ok_0);
            &&& spec_merge_objects(models) matches Err(e) ==> (r matches Err(le) && le@ == e)
            &&& spec_merge_objects(models) matches Ok(u) ==> {
                &&& (r is Ok) == (resolved_sites_ok(u.relocations, u.symbols, u.code.len() as int)
                    && unresolved_names(u.relocations, u.symbols).len() == 0)
                &&& r matches Ok(image) ==> image@ == apply_entries(
                    u.code,
                    u.relocations,
                    u.symbols,
                )
                &&& (resolved_sites_ok(u.relocations, u.symbols, u.code.len() as int)
                    && unresolved_names(u.relocations, u.symbols).len() > 0) ==> (r matches Err(e)
                    && e@ == LinkErrorModel::Unresolved {
                        names: unresolved_names(u.relocations, u.symbols),
                    })
                &&& !resolved_sites_ok(u.relocations, u.symbols, u.code.len() as int) ==> (r
                    matches Err(e) && e@ matches LinkErrorModel::SiteOutOfRange { site }
                    && is_unpatchable_site(u.relocations, u.symbols, u.code.len() as int, site))
            }
        }),
{
    let count = buffers.len();
    let mut objects: Vec<ObjectFile> = Vec::new();
    let mut i: usize = 0;
    while i < count
        invariant
            i <= count,
            count == buffers@.len(),
            objects@.len() == i,
            forall|j: int| 0 <= j < i ==> spec_decode(#[trigger] buffers@[j]@) is Ok,
            forall|j: int|
                0 <= j < i ==> spec_decode(buffers@[j]@) == Ok::<ObjectModel, crate::errors::DecodeError>(
                    #[trigger] objects@[j]@,
                ),
        decreases count - i,
    {
        match decode_object(buffers[i].as_slice()) {
            Ok(object) => objects.push(object),
            Err(error) => {
                return Err(LinkError::Decode { file: i, error });
            },
        }
        i = i + 1;
    }
    let ghost models = Seq::new(buffers@.len(), |i: int| spec_decode(buffers@[i]@)->Ok_0);
    proof {
        assert(object_models(objects@) =~~= models);
    }
    link_objects(objects)
}

/// Prefix sum of code lengths: the total code of the objects before `i`,
/// which is the base address object `i` is rebased by.
pub open spec fn code_before(objs: Seq<ObjectModel>, i: int) -> int
    decreases i,
{
    if i <= 0 {
        0
    } else {
        code_before(objs, i - 1) + objs[i - 1].code.len()
    }
}

/// Prefix sum of symbol counts: where object `i`'s symbol entries start in
/// the merged table.
pub open spec fn symbols_before(objs: Seq<ObjectModel>, i: int) -> int
    decreases i,
{
    if i <= 0 {
        0
    } else {
        symbols_before(objs, i - 1) + objs[i - 1].symbols.len()
    }
}

/// Prefix sums of lengths are never negative.
proof fn lemma_prefix_sums_nonneg(objs: Seq<ObjectModel>, i: int)
    ensures
        code_before(objs, i) >= 0,
        symbols_before(objs, i) >= 0,
    decreases i,
{
    if i > 0 {
        lemma_prefix_sums_nonneg(objs, i - 1);
    }
}

/// The prefix sums read only the first `i` objects, so dropping later
/// objects does not change them.
proof fn lemma_prefix_sums_agree(objs: Seq<ObjectModel>, i: int)
    requires
        0 <= i <= objs.len() - 1,
    ensures
        code_before(objs.drop_last(), i) == code_before(objs, i),
        symbols_before(objs.drop_last(), i) == symbols_before(objs, i),
    decreases i,
{
    if i > 0 {
        lemma_prefix_sums_agree(objs, i - 1);
    }
}

/// Round-trip offset arithmetic: in a successful merge, the symbol entry
/// contributed by object `i` at position `k` of its table appears in the
/// merged table with its name unchanged and its address equal to the local
/// address plus the summed code lengths of the objects before `i`.
pub proof fn lemma_round_trip_offsets(objs: Seq<ObjectModel>, unit: UnitModel)
    requires
        spec_merge_objects(objs) == Ok::<UnitModel, LinkErrorModel>(unit),
    ensures
        unit.code.len() == code_before(objs, objs.len() as int),
        unit.symbols.len() == symbols_before(objs, objs.len() as int),
        forall|i: int, k: int|
            #![trigger objs[i].symbols[k]]
            0 <= i < objs.len() && 0 <= k < objs[i].symbols.len() ==> {
                &&& objs[i].symbols[k].1 + code_before(objs, i) <= u32::MAX
                &&& unit.symbols[symbols_before(objs, i) + k] == (
                objs[i].symbols[k].0,
                (objs[i].symbols[k].1 + code_before(objs, i)) as u32,
                )
            },
    decreases objs.len(),
{
    if objs.len() == 0 {
    } else {
        let prefix = objs.drop_last();
        assert(spec_merge_objects(prefix) is Ok);
        let prev = spec_merge_objects(prefix)->Ok_0;
        lemma_round_trip_offsets(prefix, prev);
        let last = objs.last();
        let base = prev.code.len() as int;
        assert(spec_merge(prev, last) == Ok::<UnitModel, LinkErrorModel>(unit));
        assert(unit.symbols == prev.symbols + crate::merge::rebase_symbols(last.symbols, base));
        assert(crate::merge::symbols_fit(last.symbols, base));
        assert forall|i: int| 0 <= i <= objs.len() - 1 implies code_before(prefix, i)
            == code_before(objs, i) && symbols_before(prefix, i) == symbols_before(objs, i) by {
            lemma_prefix_sums_agree(objs, i);
        }
        assert(prev.symbols.len() == symbols_before(objs, objs.len() - 1));
        assert(base == code_before(objs, objs.len() - 1));
        assert(unit.code.len() == code_before(objs, objs.len() as int));
        assert(unit.symbols.len() == symbols_before(objs, objs.len() as int));
        assert forall|i: int, k: int|
            #![trigger objs[i].symbols[k]]
            0 <= i < objs.len() && 0 <= k < objs[i].symbols.len() implies {
            &&& objs[i].symbols[k].1 + code_before(objs, i) <= u32::MAX
            &&& unit.symbols[symbols_before(objs, i) + k] == (
            objs[i].symbols[k].0,
            (objs[i].symbols[k].1 + code_before(objs, i)) as u32,
            )
        } by {
            if i < objs.len() - 1 {
                assert(prefix[i] == objs[i]);
                assert(prefix[i].symbols[k] == objs[i].symbols[k]);
                lemma_symbols_before_bound(prefix, i, prefix.len() as int);
                lemma_prefix_sums_nonneg(objs, i);
                let idx = symbols_before(objs, i) + k;
                assert(symbols_before(prefix, i) == symbols_before(objs, i));
                assert(prev.symbols[symbols_before(prefix, i) + k] == (
                    prefix[i].symbols[k].0,
                    (prefix[i].symbols[k].1 + code_before(prefix, i)) as u32,
                ));
                assert(idx < prev.symbols.len());
                assert((prev.symbols + crate::merge::rebase_symbols(last.symbols, base))[idx]
                    == prev.symbols[idx]);
                assert(unit.symbols[idx] == prev.symbols[idx]);
            } else {
                assert(i == objs.len() - 1);
                assert(objs[i] == last);
                lemma_prefix_sums_nonneg(objs, i);
                let idx = symbols_before(objs, i) + k;
                assert(idx == prev.symbols.len() + k);
                assert((prev.symbols + crate::merge::rebase_symbols(last.symbols, base))[idx]
                    == crate::merge::rebase_symbols(last.symbols, base)[k]);
                assert(unit.symbols[idx] == crate::merge::rebase_symbols(last.symbols, base)[k]);
                assert(crate::merge::rebase_symbols(last.symbols, base)[k] == (
                    last.symbols[k].0,
                    (last.symbols[k].1 + base) as u32,
                ));
            }
        }
    }
}

/// A merged unit that references an undefined name cannot resolve: the
/// aggregated list of unresolved names contains that name and is non-empty,
/// so by [`link_objects`]'s contract the link fails with the aggregated
/// report instead of producing an image.
pub proof fn lemma_link_fails_on_undefined(u: UnitModel, i: int)
    requires
        0 <= i < u.relocations.len(),
        crate::tables::symbol_lookup(u.symbols, u.relocations[i].0) is None,
    ensures
        unresolved_names(u.relocations, u.symbols).contains(u.relocations[i].0),
        unresolved_names(u.relocations, u.symbols).len() > 0,
{
    crate::resolve::lemma_unresolved_complete(u.relocations, u.symbols, i);
}

/// A two-object merge, unfolded: the unit's code is the concatenation and
/// its symbols are the first table followed by the second rebased by the
/// first's code length.
proof fn lemma_merge_pair(a: ObjectModel, b: ObjectModel, unit: UnitModel)
    requires
        spec_merge_objects(seq![a, b]) == Ok::<UnitModel, LinkErrorModel>(unit),
    ensures
        unit.code == a.code + b.code,
        unit.symbols == a.symbols + crate::merge::rebase_symbols(b.symbols, a.code.len() as int),
        crate::merge::symbols_fit(b.symbols, a.code.len() as int),
{
    let pair = seq![a, b];
    assert(pair.drop_last() =~= seq![a]);
    assert(pair.last() == b);
    assert(seq![a].drop_last() =~= Seq::<ObjectModel>::empty());
    assert(seq![a].last() == a);
    assert(spec_merge_objects(Seq::<ObjectModel>::empty()) == Ok::<UnitModel, LinkErrorModel>(
        empty_unit(),
    ));
    assert(spec_merge_objects(seq![a]) == spec_merge(empty_unit(), a));
    assert(spec_merge_objects(seq![a]) is Ok);
    let ua = spec_merge_objects(seq![a])->Ok_0;
    assert(spec_merge(empty_unit(), a) == Ok::<UnitModel, LinkErrorModel>(ua));
    assert(ua.code =~= a.code);
    crate::merge::lemma_rebase_zero(a.symbols);
    assert(ua.symbols =~= a.symbols);
    assert(spec_merge(ua, b) == Ok::<UnitModel, LinkErrorModel>(unit));
    assert(unit.code =~= a.code + b.code);
}

/// Order sensitivity: when a symbol is defined only in the second of two
/// objects, its merged address is its local address plus the first object's
/// code length, and the merged code is the two code buffers in the order
/// given. Swapping the objects moves the address back to the local one and
/// reverses the layout: merge order is respected exactly as given.
pub proof fn lemma_order_sensitivity(
    a: ObjectModel,
    b: ObjectModel,
    uab: UnitModel,
    uba: UnitModel,
    name: Seq<char>,
    address: u32,
)
    requires
        spec_merge_objects(seq![a, b]) == Ok::<UnitModel, LinkErrorModel>(uab),
        spec_merge_objects(seq![b, a]) == Ok::<UnitModel, LinkErrorModel>(uba),
        crate::tables::symbol_lookup(a.symbols, name) is None,
        crate::tables::symbol_lookup(b.symbols, name) == Some(address),
    ensures
        uab.code == a.code + b.code,
        uba.code == b.code + a.code,
        address + a.code.len() <= u32::MAX,
        crate::tables::symbol_lookup(uab.symbols, name) == Some(
            ((address + a.code.len()) as u32),
        ),
        crate::tables::symbol_lookup(uba.symbols, name) == Some(address),
{
    lemma_merge_pair(a, b, uab);
    lemma_merge_pair(b, a, uba);
    let base_a = a.code.len() as int;
    let base_b = b.code.len() as int;
    let rebased_b = crate::merge::rebase_symbols(b.symbols, base_a);
    crate::merge::lemma_lookup_rebase(b.symbols, base_a, name);
    crate::tables::lemma_lookup_concat(a.symbols, rebased_b, name);
    let rebased_a = crate::merge::rebase_symbols(a.symbols, base_b);
    crate::merge::lemma_lookup_rebase(a.symbols, base_b, name);
    crate::tables::lemma_lookup_concat(b.symbols, rebased_a, name);
}

/// The start of object `i`'s entries lies before the start of object `j`'s
/// by at least the size of every table in between.
proof fn lemma_symbols_before_bound(objs: Seq<ObjectModel>, i: int, j: int)
    requires
        0 <= i < j <= objs.len(),
    ensures
        symbols_before(objs, i) + objs[i].symbols.len() <= symbols_before(objs, j),
    decreases j - i,
{
    if i + 1 < j {
        lemma_symbols_before_bound(objs, i + 1, j);
    }
}

} // verus!
