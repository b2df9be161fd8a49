//! The three fields that a row of either input table is read for.

use vstd::prelude::*;

verus! {

/// Three values of one kind, in the order in which a row holds them.
#[derive(Debug, PartialEq, Eq)]
pub struct Triple<T> {
    pub first: T,
    pub second: T,
    pub third: T,
}

/// Three text fields as text.
pub open spec fn text_of_triple(fields: Triple<String>) -> Triple<Seq<char>> {
    Triple { first: fields.first@, second: fields.second@, third: fields.third@ }
}

/// A list of field triples as text.
pub open spec fn text_of_triples(triples: Seq<Triple<String>>) -> Seq<Triple<Seq<char>>> {
    triples.map_values(|fields: Triple<String>| text_of_triple(fields))
}

} // verus!
