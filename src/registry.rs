//! The prefix registry: prefix names mapped to base identifiers, plus an
//! optional default base.
use vstd::prelude::*;

use crate::curie::{option_text, split_curie, Curie, CurieView};
use crate::text::{first_index_of, has_prefix, same_text};

verus! {

/// Errors that might occur when adding a prefix to a [`PrefixMapping`].
#[derive(Clone, Copy, Debug, PartialEq, Eq, Structural)]
pub enum InvalidPrefixError {
    /// The prefix `"_"` is reserved.
    ReservedPrefix,
}

/// Errors that might occur during CURIE expansion.
#[derive(Clone, Copy, Debug, PartialEq, Eq, Structural)]
pub enum ExpansionError {
    /// The prefix on the CURIE has no mapping.
    Invalid,
    /// The CURIE has no prefix, and no default has been set.
    MissingDefault,
}

/// The prefix name that can never be registered.
pub open spec fn reserved_prefix() -> Seq<char> {
    seq!['_']
}

/// What a registry holds: the default base, if any, and the map from
/// prefix names to base identifiers.
pub struct RegistryView {
    pub default: Option<Seq<char>>,
    pub prefixes: Map<Seq<char>, Seq<char>>,
}

impl RegistryView {
    /// The same registry with `name` mapped to `base`, whatever it held.
    pub open spec fn with_prefix(self, name: Seq<char>, base: Seq<char>) -> RegistryView {
        RegistryView { default: self.default, prefixes: self.prefixes.insert(name, base) }
    }

    /// The same registry with no mapping for `name`.
    pub open spec fn without_prefix(self, name: Seq<char>) -> RegistryView {
        RegistryView { default: self.default, prefixes: self.prefixes.remove(name) }
    }

    /// The full identifier that `c` expands to: the base of its prefix, or
    /// the default base when it has none, followed by its reference.
    pub open spec fn expand(self, c: CurieView) -> Result<Seq<char>, ExpansionError> {
        match c.prefix {
            Some(p) => if self.prefixes.contains_key(p) {
                Ok(self.prefixes[p] + c.reference)
            } else {
                Err(ExpansionError::Invalid)
            },
            None => match self.default {
                Some(d) => Ok(d + c.reference),
                None => Err(ExpansionError::MissingDefault),
            },
        }
    }

    /// Whether a default base is set and starts `iri`.
    pub open spec fn default_matches(self, iri: Seq<char>) -> bool {
        self.default matches Some(d) && d.is_prefix_of(iri)
    }

    /// Whether `iri` can be shrunk: the default base or some registered base
    /// starts it.
    pub open spec fn can_shrink(self, iri: Seq<char>) -> bool {
        ||| self.default_matches(iri)
        ||| exists|p: Seq<char>| #[trigger]
            self.prefixes.contains_key(p) && self.prefixes[p].is_prefix_of(iri)
    }

    /// Whether `c` is an allowed result of shrinking `iri`. The default base
    /// is tried first; otherwise `c` names any prefix whose base starts
    /// `iri`, since the order in which prefixes are tried is unspecified.
    /// The reference is what follows the base.
    pub open spec fn shrinks_to(self, iri: Seq<char>, c: CurieView) -> bool {
        if self.default_matches(iri) {
            c == CurieView { prefix: None, reference: iri.skip(self.default.unwrap().len() as int) }
        } else {
            &&& c.prefix matches Some(p)
            &&& self.prefixes.contains_key(p)
            &&& self.prefixes[p].is_prefix_of(iri)
            &&& c.reference == iri.skip(self.prefixes[p].len() as int)
        }
    }

    /// The same registry with `base` as its default.
    pub open spec fn with_default(self, base: Seq<char>) -> RegistryView {
        RegistryView { default: Some(base), prefixes: self.prefixes }
    }
}

/// Whether no two entries share a prefix name.
pub open spec fn keys_unique(e: Seq<(String, String)>) -> bool {
    forall|i: int, j: int|
        0 <= i < e.len() && 0 <= j < e.len() && i != j ==> #[trigger] e[i].0@ != #[trigger] e[j].0@
}

/// The map that a list of entries with unique names describes.
pub open spec fn entries_map(e: Seq<(String, String)>) -> Map<Seq<char>, Seq<char>> {
    Map::new(
        |k: Seq<char>| exists|i: int| 0 <= i < e.len() && e[i].0@ == k,
        |k: Seq<char>| e[choose|i: int| 0 <= i < e.len() && e[i].0@ == k].1@,
    )
}

proof fn lemma_entry(e: Seq<(String, String)>, i: int)
    requires
        keys_unique(e),
        0 <= i < e.len(),
    ensures
        entries_map(e).contains_key(e[i].0@),
        entries_map(e)[e[i].0@] == e[i].1@,
{
    let k = e[i].0@;
    assert(exists|j: int| 0 <= j < e.len() && e[j].0@ == k);
    let j = choose|j: int| 0 <= j < e.len() && e[j].0@ == k;
    assert(j == i);
}

proof fn lemma_push(e: Seq<(String, String)>, x: (String, String))
    requires
        keys_unique(e),
        !entries_map(e).contains_key(x.0@),
    ensures
        keys_unique(e.push(x)),
        entries_map(e.push(x)) == entries_map(e).insert(x.0@, x.1@),
{
    let e2 = e.push(x);
    let n = e.len() as int;
    assert forall|i: int| 0 <= i < n implies e[i].0@ != x.0@ by {
        lemma_entry(e, i);
    }
    assert(keys_unique(e2)) by {
        assert forall|i: int, j: int|
            0 <= i < e2.len() && 0 <= j < e2.len() && i != j implies #[trigger] e2[i].0@
            != #[trigger] e2[j].0@ by {
            if i < n && j < n {
                assert(e2[i] == e[i] && e2[j] == e[j]);
            } else if i < n {
                assert(e2[i] == e[i] && e2[j] == x);
                assert(e[i].0@ != x.0@);
            } else {
                assert(e2[j] == e[j] && e2[i] == x);
                assert(e[j].0@ != x.0@);
            }
        }
    }
    let m = entries_map(e).insert(x.0@, x.1@);
    assert forall|k: Seq<char>| #[trigger] entries_map(e2).contains_key(k) <==> m.contains_key(k) by {
        if entries_map(e2).contains_key(k) {
            let j = choose|j: int| 0 <= j < e2.len() && e2[j].0@ == k;
            if j < n {
                assert(e[j].0@ == k);
            }
        }
        if m.contains_key(k) && k != x.0@ {
            let j = choose|j: int| 0 <= j < e.len() && e[j].0@ == k;
            assert(e2[j].0@ == k);
        }
        if k == x.0@ {
            assert(e2[n].0@ == k);
        }
    }
    assert forall|k: Seq<char>| #[trigger] entries_map(e2).contains_key(k) implies entries_map(
        e2,
    )[k] == m[k] by {
        let j = choose|j: int| 0 <= j < e2.len() && e2[j].0@ == k;
        lemma_entry(e2, j);
        if j < n {
            assert(e2[j] == e[j]);
            lemma_entry(e, j);
        }
    }
    assert(entries_map(e2) =~= m);
}

proof fn lemma_update(e: Seq<(String, String)>, i: int, x: (String, String))
    requires
        keys_unique(e),
        0 <= i < e.len(),
        x.0@ == e[i].0@,
    ensures
        keys_unique(e.update(i, x)),
        entries_map(e.update(i, x)) == entries_map(e).insert(x.0@, x.1@),
{
    let e2 = e.update(i, x);
    assert(keys_unique(e2)) by {
        assert forall|a: int, b: int|
            0 <= a < e2.len() && 0 <= b < e2.len() && a != b implies #[trigger] e2[a].0@
            != #[trigger] e2[b].0@ by {
            assert(e[a].0@ != e[b].0@);
        }
    }
    let m = entries_map(e).insert(x.0@, x.1@);
    assert forall|k: Seq<char>| #[trigger] entries_map(e2).contains_key(k) <==> m.contains_key(k) by {
        if entries_map(e2).contains_key(k) {
            let j = choose|j: int| 0 <= j < e2.len() && e2[j].0@ == k;
            assert(e[j].0@ == k);
        }
        if m.contains_key(k) {
            if k == x.0@ {
                assert(e2[i].0@ == k);
            } else {
                let j = choose|j: int| 0 <= j < e.len() && e[j].0@ == k;
                assert(e2[j].0@ == k);
            }
        }
    }
    assert forall|k: Seq<char>| #[trigger] entries_map(e2).contains_key(k) implies entries_map(
        e2,
    )[k] == m[k] by {
        let j = choose|j: int| 0 <= j < e2.len() && e2[j].0@ == k;
        lemma_entry(e2, j);
        if j != i {
            lemma_entry(e, j);
        }
    }
    assert(entries_map(e2) =~= m);
}

proof fn lemma_remove(e: Seq<(String, String)>, i: int)
    requires
        keys_unique(e),
        0 <= i < e.len(),
    ensures
        keys_unique(e.remove(i)),
        entries_map(e.remove(i)) == entries_map(e).remove(e[i].0@),
{
    let e2 = e.remove(i);
    let k0 = e[i].0@;
    assert forall|j: int| 0 <= j < e2.len() implies #[trigger] e2[j] == (if j < i {
        e[j]
    } else {
        e[j + 1]
    }) by {}
    assert(keys_unique(e2)) by {
        assert forall|a: int, b: int|
            0 <= a < e2.len() && 0 <= b < e2.len() && a != b implies #[trigger] e2[a].0@
            != #[trigger] e2[b].0@ by {
            let a1 = if a < i {
                a
            } else {
                a + 1
            };
            let b1 = if b < i {
                b
            } else {
                b + 1
            };
            assert(e[a1].0@ != e[b1].0@);
        }
    }
    let m = entries_map(e).remove(k0);
    assert forall|k: Seq<char>| #[trigger] entries_map(e2).contains_key(k) <==> m.contains_key(k) by {
        if entries_map(e2).contains_key(k) {
            let j = choose|j: int| 0 <= j < e2.len() && e2[j].0@ == k;
            let j1 = if j < i {
                j
            } else {
                j + 1
            };
            assert(e[j1].0@ == k);
            assert(k != k0);
        }
        if m.contains_key(k) {
            let j = choose|j: int| 0 <= j < e.len() && e[j].0@ == k;
            assert(j != i);
            if j < i {
                assert(e2[j].0@ == k);
            } else {
                assert(e2[j - 1].0@ == k);
            }
        }
    }
    assert forall|k: Seq<char>| #[trigger] entries_map(e2).contains_key(k) implies entries_map(
        e2,
    )[k] == m[k] by {
        let j = choose|j: int| 0 <= j < e2.len() && e2[j].0@ == k;
        lemma_entry(e2, j);
        if j < i {
            lemma_entry(e, j);
        } else {
            lemma_entry(e, j + 1);
        }
    }
    assert(entries_map(e2) =~= m);
}

/// Maps prefixes to base identifiers, and expands and shrinks CURIEs
/// (compact URIs) with them.
pub struct PrefixMapping {
    default: Option<String>,
    mapping: Vec<(String, String)>,
}

impl View for PrefixMapping {
    type V = RegistryView;

    closed spec fn view(&self) -> RegistryView {
        RegistryView {
            default: match self.default {
                Some(d) => Some(d@),
                None => None,
            },
            prefixes: entries_map(self.mapping@),
        }
    }
}

impl Default for PrefixMapping {
    /// An empty registry: no default base and no prefixes.
    fn default() -> (r: PrefixMapping)
        ensures
            r.wf(),
            r@.default is None,
            r@.prefixes == Map::<Seq<char>, Seq<char>>::empty(),
    {
        let r = PrefixMapping { default: None, mapping: Vec::new() };
        assert(r@.prefixes =~= Map::<Seq<char>, Seq<char>>::empty());
        r
    }
}

impl PrefixMapping {
    /// The registry's invariant: prefix names are unique, and none of them
    /// is the reserved one.
    pub closed spec fn wf(&self) -> bool {
        &&& keys_unique(self.mapping@)
        &&& forall|i: int|
            0 <= i < self.mapping@.len() ==> #[trigger] self.mapping@[i].0@ != reserved_prefix()
    }

    /// A well-formed registry never maps the reserved prefix.
    pub proof fn lemma_reserved_absent(&self)
        requires
            self.wf(),
        ensures
            !self@.prefixes.contains_key(reserved_prefix()),
    {
        if self@.prefixes.contains_key(reserved_prefix()) {
            let j = choose|j: int|
                0 <= j < self.mapping@.len() && self.mapping@[j].0@ == reserved_prefix();
            assert(self.mapping@[j].0@ != reserved_prefix());
        }
    }

    /// The position of the entry for `prefix`.
    fn find(&self, prefix: &str) -> (r: Option<usize>)
        requires
            self.wf(),
        ensures
            r matches Some(i) ==> i < self.mapping@.len() && self.mapping@[i as int].0@ == prefix@,
            r is None ==> !self@.prefixes.contains_key(prefix@),
    {
        let mut i: usize = 0;
        while i < self.mapping.len()
            invariant
                i <= self.mapping@.len(),
                forall|j: int| 0 <= j < i ==> self.mapping@[j].0@ != prefix@,
            decreases self.mapping@.len() - i,
        {
            if same_text(self.mapping[i].0.as_str(), prefix) {
                return Some(i);
            }
            i = i + 1;
        }
        None
    }

    /// Set the default base, used during expansion when a CURIE has no
    /// prefix.
    pub fn set_default(&mut self, default: &str)
        requires
            old(self).wf(),
        ensures
            final(self).wf(),
            final(self)@ == old(self)@.with_default(default@),
    {
        self.default = Some(default.to_owned());
    }

    /// Add a prefix to the mapping, replacing any base it had.
    pub fn add_prefix(&mut self, prefix: &str, value: &str) -> (r: Result<(), InvalidPrefixError>)
        requires
            old(self).wf(),
        ensures
            final(self).wf(),
            prefix@ == reserved_prefix() ==> r == Err::<(), _>(InvalidPrefixError::ReservedPrefix)
                && final(self)@ == old(self)@,
            prefix@ != reserved_prefix() ==> r is Ok && final(self)@ == old(self)@.with_prefix(
                prefix@,
                value@,
            ),
    {
        proof {
            reveal_strlit("_");
            assert("_"@ =~= reserved_prefix());
        }
        if same_text(prefix, "_") {
            return Err(InvalidPrefixError::ReservedPrefix);
        }
        let entry = (prefix.to_owned(), value.to_owned());
        match self.find(prefix) {
            Some(i) => {
                proof {
                    lemma_update(self.mapping@, i as int, entry);
                }
                self.mapping.set(i, entry);
            },
            None => {
                proof {
                    lemma_push(self.mapping@, entry);
                }
                self.mapping.push(entry);
            },
        }
        assert forall|j: int| 0 <= j < self.mapping@.len() implies #[trigger] self.mapping@[j].0@
            != reserved_prefix() by {
            if self.mapping@[j].0@ != prefix@ {
                assert(old(self).mapping@.contains(self.mapping@[j]));
            }
        }
        Ok(())
    }

    /// Remove a prefix from the mapping; a name with no mapping is left as
    /// it is.
    pub fn remove_prefix(&mut self, prefix: &str)
        requires
            old(self).wf(),
        ensures
            final(self).wf(),
            final(self)@ == old(self)@.without_prefix(prefix@),
    {
        match self.find(prefix) {
            Some(i) => {
                proof {
                    lemma_remove(self.mapping@, i as int);
                }
                self.mapping.remove(i);
            },
            None => {
                assert(self@.prefixes =~= self@.prefixes.remove(prefix@));
            },
        }
    }

    /// Expand a CURIE string, returning a complete IRI.
    ///
    /// The text before the first colon is the prefix, even when empty; with
    /// no colon the whole text is a reference under the default base.
    pub fn expand_curie_string(&self, curie_str: &str) -> (r: Result<String, ExpansionError>)
        requires
            self.wf(),
        ensures
            match r {
                Ok(s) => self@.expand(split_curie(curie_str@)) == Ok::<_, ExpansionError>(s@),
                Err(e) => self@.expand(split_curie(curie_str@)) == Err::<Seq<char>, _>(e),
            },
    {
        proof {
            curie_str@.index_of_first_ensures(':');
        }
        let len = curie_str.unicode_len();
        match first_index_of(curie_str, ':') {
            Some(separator_idx) => {
                let prefix = curie_str.substring_char(0, separator_idx);
                let reference = curie_str.substring_char(separator_idx + 1, len);
                self.expand_exploded_curie(Some(prefix), reference)
            },
            None => self.expand_exploded_curie(None, curie_str),
        }
    }

    /// Expand a parsed [`Curie`], returning a complete IRI.
    pub fn expand_curie(&self, curie: &Curie) -> (r: Result<String, ExpansionError>)
        requires
            self.wf(),
        ensures
            match r {
                Ok(s) => self@.expand(curie@) == Ok::<_, ExpansionError>(s@),
                Err(e) => self@.expand(curie@) == Err::<Seq<char>, _>(e),
            },
    {
        self.expand_exploded_curie(curie.prefix_str(), curie.reference_str())
    }

    fn expand_exploded_curie(&self, prefix: Option<&str>, reference: &str) -> (r: Result<
        String,
        ExpansionError,
    >)
        requires
            self.wf(),
        ensures
            match r {
                Ok(s) => self@.expand(CurieView { prefix: option_text(prefix), reference: reference@ })
                    == Ok::<_, ExpansionError>(s@),
                Err(e) => self@.expand(
                    CurieView { prefix: option_text(prefix), reference: reference@ },
                ) == Err::<Seq<char>, _>(e),
            },
    {
        match prefix {
            Some(prefix) => match self.find(prefix) {
                Some(i) => {
                    proof {
                        lemma_entry(self.mapping@, i as int);
                    }
                    let mut expanded = self.mapping[i].1.clone();
                    expanded.append(reference);
                    Ok(expanded)
                },
                None => Err(ExpansionError::Invalid),
            },
            None => match &self.default {
                Some(default) => {
                    let mut expanded = default.clone();
                    expanded.append(reference);
                    Ok(expanded)
                },
                None => Err(ExpansionError::MissingDefault),
            },
        }
    }

    /// Shrink an IRI, returning a [`Curie`].
    ///
    /// The default base is tried first, then the registered prefixes in no
    /// particular order; the first base that starts `iri` is stripped from
    /// it once.
    pub fn shrink_iri(&self, iri: &str) -> (r: Result<Curie, &'static str>)
        requires
            self.wf(),
        ensures
            match r {
                Ok(c) => self@.shrinks_to(iri@, c@),
                Err(_) => !self@.can_shrink(iri@),
            },
    {
        match &self.default {
            Some(def) => {
                if has_prefix(iri, def.as_str()) {
                    let rest = iri.substring_char(def.as_str().unicode_len(), iri.unicode_len());
                    return Ok(Curie::new(None, rest));
                }
            },
            None => {},
        }
        let mut i: usize = 0;
        while i < self.mapping.len()
            invariant
                self.wf(),
                i <= self.mapping@.len(),
                !self@.default_matches(iri@),
                forall|j: int| 0 <= j < i ==> !(#[trigger] self.mapping@[j]).1@.is_prefix_of(iri@),
            decreases self.mapping@.len() - i,
        {
            let base = self.mapping[i].1.as_str();
            if has_prefix(iri, base) {
                proof {
                    lemma_entry(self.mapping@, i as int);
                }
                let rest = iri.substring_char(base.unicode_len(), iri.unicode_len());
                return Ok(Curie::new(Some(self.mapping[i].0.as_str()), rest));
            }
            i = i + 1;
        }
        proof {
            assert forall|p: Seq<char>| #[trigger]
                self@.prefixes.contains_key(p) implies !self@.prefixes[p].is_prefix_of(iri@) by {
                let j = choose|j: int|
                    0 <= j < self.mapping@.len() && self.mapping@[j].0@ == p;
                lemma_entry(self.mapping@, j);
                assert(!self.mapping@[j].1@.is_prefix_of(iri@));
            }
        }
        Err("Unable to shorten")
    }

    /// The (prefix, base) pairs of the mapping, in no particular order;
    /// each prefix appears once.
    pub fn mappings(&self) -> (r: &[(String, String)])
        requires
            self.wf(),
        ensures
            keys_unique(r@),
            entries_map(r@) == self@.prefixes,
    {
        self.mapping.as_slice()
    }
}

} // verus!
