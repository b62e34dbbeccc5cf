//! Parsing, writing and parsing again.

use vstd::prelude::*;
use crate::chunk::{contents, ChunkView};
use crate::grammar::parse_dot;
use crate::roundtrip::document::{lemma_document_back, names_graph};
use crate::roundtrip::lines::lemma_parsed_sorted;
use crate::roundtrip::parsed::{
    all_well_formed, lemma_parsed_well_formed, lemma_printable, values_ok,
};
use crate::roundtrip::spelled::{lemma_printable_writable, writable};
use crate::roundtrip::statement::printable;
use crate::serializer::document;

verus! {

/// Every attribute value of every chunk that looks like an HTML-like
/// label, starting with `<` and ending with `>`, has its angle brackets
/// balanced. A quoted string such as `"<>>"` is a value that has not.
pub open spec fn labels_balanced(cs: Seq<ChunkView>) -> bool {
    forall|k: int| 0 <= k < cs.len() ==> values_ok((#[trigger] cs[k]).attrs)
}

/// Well-formed chunks with balanced labels are printable.
pub proof fn lemma_all_printable(cs: Seq<ChunkView>)
    requires
        all_well_formed(cs),
        labels_balanced(cs),
    ensures
        forall|k: int| 0 <= k < cs.len() ==> printable(#[trigger] cs[k]),
{
    assert forall|k: int| 0 <= k < cs.len() implies printable(#[trigger] cs[k]) by {
        lemma_printable(cs[k]);
    }
}

/// Parsing a document, writing its chunks and parsing what was written
/// yields chunks that say the same as those of the first parse: the same
/// kind, id, attributes and extra value, each as often as before, and
/// even in the same order.
///
/// This holds for every text that is a document of the grammar and whose
/// attribute values have no unbalanced HTML-like label among them, for
/// every graph name that is one identifier, empty or absent, as long as the
/// written text is not too long for its lines to be counted.
pub proof fn lemma_parse_write_parse(t: Seq<char>, name: Option<Seq<char>>)
    requires
        parse_dot(t) is Some,
        labels_balanced(parse_dot(t)->0),
        names_graph(name),
        document(parse_dot(t)->0, name).len() < usize::MAX,
    ensures
        parse_dot(document(parse_dot(t)->0, name)) matches Some(again) && contents(again)
            == contents(parse_dot(t)->0) && contents(again).to_multiset() == contents(
            parse_dot(t)->0,
        ).to_multiset(),
{
    let first = parse_dot(t)->0;
    lemma_parsed_well_formed(t);
    lemma_all_printable(first);
    lemma_document_back(first, name);
    lemma_parsed_sorted(t);
}

/// Writing the chunks of a parsed document, parsing what was written and
/// writing again gives the text of the first writing: writing is
/// idempotent over parsing. This holds under the conditions of
/// [`lemma_parse_write_parse`].
pub proof fn lemma_parsed_write_parse_write(t: Seq<char>, name: Option<Seq<char>>)
    requires
        parse_dot(t) is Some,
        labels_balanced(parse_dot(t)->0),
        names_graph(name),
        document(parse_dot(t)->0, name).len() < usize::MAX,
    ensures
        parse_dot(document(parse_dot(t)->0, name)) matches Some(again) && document(again, name)
            == document(parse_dot(t)->0, name),
{
    let first = parse_dot(t)->0;
    lemma_parsed_well_formed(t);
    lemma_all_printable(first);
    assert forall|k: int| 0 <= k < first.len() implies writable(#[trigger] first[k]) by {
        lemma_printable_writable(first[k]);
    }
    crate::roundtrip::rewrite::lemma_write_parse_write(first, name);
}

} // verus!
