//! Laws that relate the registry's operations to one another, stated over
//! the registry's view and the contracts of its methods.
use vstd::prelude::*;

use crate::curie::CurieView;
use crate::registry::{reserved_prefix, ExpansionError, RegistryView};

verus! {

/// Shrinking the expansion of `p:r` gives back `p:r`, provided that
/// neither the default base nor any other registered base also starts the
/// expanded identifier. The reference may hold any characters.
pub proof fn lemma_shrink_expand_round_trip(reg: RegistryView, p: Seq<char>, r: Seq<char>)
    requires
        reg.prefixes.contains_key(p),
        !reg.default_matches(reg.prefixes[p] + r),
        forall|q: Seq<char>| #[trigger]
            reg.prefixes.contains_key(q) && q != p ==> !reg.prefixes[q].is_prefix_of(
                reg.prefixes[p] + r,
            ),
    ensures
        reg.expand(CurieView { prefix: Some(p), reference: r }) == Ok::<_, ExpansionError>(
            reg.prefixes[p] + r,
        ),
        reg.can_shrink(reg.prefixes[p] + r),
        forall|c: CurieView| #[trigger]
            reg.shrinks_to(reg.prefixes[p] + r, c) ==> c == (CurieView {
                prefix: Some(p),
                reference: r,
            }),
{
    let base = reg.prefixes[p];
    let iri = base + r;
    assert(iri.subrange(0, base.len() as int) =~= base);
    assert(iri.skip(base.len() as int) =~= r);
    assert(reg.prefixes.contains_key(p) && reg.prefixes[p].is_prefix_of(iri));
}

/// With a default base set, shrinking the expansion of a bare reference
/// gives back that bare reference.
pub proof fn lemma_default_round_trip(reg: RegistryView, r: Seq<char>)
    requires
        reg.default is Some,
    ensures
        reg.expand(CurieView { prefix: None, reference: r }) == Ok::<_, ExpansionError>(
            reg.default.unwrap() + r,
        ),
        reg.can_shrink(reg.default.unwrap() + r),
        forall|c: CurieView| #[trigger]
            reg.shrinks_to(reg.default.unwrap() + r, c) ==> c == (CurieView {
                prefix: None,
                reference: r,
            }),
{
    let base = reg.default.unwrap();
    let iri = base + r;
    assert(iri.subrange(0, base.len() as int) =~= base);
    assert(iri.skip(base.len() as int) =~= r);
}

/// Adding a prefix twice leaves one mapping for it, with the second base:
/// the same registry as adding only the second.
pub proof fn lemma_add_prefix_overwrites(
    reg: RegistryView,
    name: Seq<char>,
    base1: Seq<char>,
    base2: Seq<char>,
)
    requires
        name != reserved_prefix(),
    ensures
        reg.with_prefix(name, base1).with_prefix(name, base2) == reg.with_prefix(name, base2),
        reg.with_prefix(name, base1).with_prefix(name, base2).prefixes.contains_key(name),
        reg.with_prefix(name, base1).with_prefix(name, base2).prefixes[name] == base2,
{
    assert(reg.prefixes.insert(name, base1).insert(name, base2) =~= reg.prefixes.insert(
        name,
        base2,
    ));
}

/// Removing a prefix twice is the same as removing it once, and removing a
/// prefix with no mapping changes nothing.
pub proof fn lemma_remove_prefix_idempotent(reg: RegistryView, name: Seq<char>)
    ensures
        reg.without_prefix(name).without_prefix(name) == reg.without_prefix(name),
        !reg.prefixes.contains_key(name) ==> reg.without_prefix(name) == reg,
{
    assert(reg.prefixes.remove(name).remove(name) =~= reg.prefixes.remove(name));
    if !reg.prefixes.contains_key(name) {
        assert(reg.prefixes.remove(name) =~= reg.prefixes);
    }
}

} // verus!
