//! The compact identifier value type and its canonical text.
use vstd::prelude::*;

verus! {

/// What a compact identifier denotes: an optional prefix name and the
/// local reference.
pub struct CurieView {
    pub prefix: Option<Seq<char>>,
    pub reference: Seq<char>,
}

impl CurieView {
    /// The canonical text: `prefix:reference`, or the bare reference when
    /// there is no prefix.
    pub open spec fn text(self) -> Seq<char> {
        match self.prefix {
            Some(p) => p + seq![':'] + self.reference,
            None => self.reference,
        }
    }
}

/// A prefix and reference, already parsed into separate components.
///
/// A missing prefix means that the registry's default base applies; an
/// empty prefix is a prefix name like any other.
#[derive(Clone, Debug, PartialEq, Eq)]
pub struct Curie {
    prefix: Option<String>,
    reference: String,
}

/// How a raw CURIE string splits: at its first colon into a prefix and a
/// reference, or, with no colon, into a bare reference.
pub open spec fn split_curie(s: Seq<char>) -> CurieView {
    match s.index_of_first(':') {
        Some(i) => CurieView { prefix: Some(s.take(i)), reference: s.skip(i + 1) },
        None => CurieView { prefix: None, reference: s },
    }
}

/// The characters of an optional string.
pub open spec fn option_text(o: Option<&str>) -> Option<Seq<char>> {
    match o {
        Some(s) => Some(s@),
        None => None,
    }
}

impl View for Curie {
    type V = CurieView;

    closed spec fn view(&self) -> CurieView {
        CurieView {
            prefix: match self.prefix {
                Some(p) => Some(p@),
                None => None,
            },
            reference: self.reference@,
        }
    }
}

impl Curie {
    /// Construct a `Curie` from a prefix and reference, stored verbatim.
    pub fn new(prefix: Option<&str>, reference: &str) -> (r: Curie)
        ensures
            r@ == (CurieView { prefix: option_text(prefix), reference: reference@ }),
    {
        let prefix = match prefix {
            Some(p) => Some(p.to_owned()),
            None => None,
        };
        Curie { prefix, reference: reference.to_owned() }
    }

    /// The prefix, if any.
    pub fn prefix_str(&self) -> (r: Option<&str>)
        ensures
            option_text(r) == self@.prefix,
    {
        match &self.prefix {
            Some(p) => Some(p.as_str()),
            None => None,
        }
    }

    /// The reference.
    pub fn reference_str(&self) -> (r: &str)
        ensures
            r@ == self@.reference,
    {
        self.reference.as_str()
    }

    /// The canonical text of this identifier.
    pub fn to_string(&self) -> (r: String)
        ensures
            r@ == self@.text(),
    {
        match &self.prefix {
            Some(p) => {
                let mut s = p.clone();
                s.append(":");
                s.append(self.reference.as_str());
                proof {
                    reveal_strlit(":");
                }
                s
            },
            None => self.reference.clone(),
        }
    }
}

impl From<Curie> for String {
    fn from(c: Curie) -> (r: String)
        ensures
            r@ == c@.text(),
    {
        c.to_string()
    }
}

impl vstd::std_specs::convert::FromSpecImpl<Curie> for String {
    open spec fn obeys_from_spec() -> bool {
        false
    }

    open spec fn from_spec(c: Curie) -> String {
        arbitrary()
    }
}

impl<'c> From<&'c Curie> for String {
    fn from(c: &'c Curie) -> (r: String)
        ensures
            r@ == c@.text(),
    {
        c.to_string()
    }
}

impl<'c> vstd::std_specs::convert::FromSpecImpl<&'c Curie> for String {
    open spec fn obeys_from_spec() -> bool {
        false
    }

    open spec fn from_spec(c: &'c Curie) -> String {
        arbitrary()
    }
}

} // verus!
