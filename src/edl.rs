//! The edit-list file: its text for a list of markers, and its name.
use vstd::prelude::*;
use crate::marker::{edl_record, views, Marker, MarkerView};
use crate::timecode::{decimal, push_decimal};

verus! {

/// One record per marker, in order, each numbered by its 1-based position.
pub open spec fn edl_records(ms: Seq<MarkerView>) -> Seq<Seq<char>> {
    Seq::new(ms.len(), |i: int| edl_record((i + 1) as nat, ms[i]))
}

/// The whole file: the records one after another, with nothing before,
/// between or after them.
pub open spec fn edl_text(ms: Seq<MarkerView>) -> Seq<char> {
    edl_records(ms).flatten()
}

/// The file's name: the session's start in whole seconds since the Unix
/// epoch, with the `.edl` extension.
pub open spec fn edl_file_name(start_secs: nat) -> Seq<char> {
    decimal(start_secs) + ".edl"@
}

/// Encoding is deterministic: snapshots that hold the same markers give the
/// same text, character for character.
pub proof fn law_encoding_deterministic(a: Seq<Marker>, b: Seq<Marker>)
    requires
        views(a) == views(b),
    ensures
        edl_text(views(a)) == edl_text(views(b)),
{
}

/// The text of the edit-list file for `markers`.
pub fn encode(markers: &Vec<Marker>) -> (r: String)
    ensures
        r@ == edl_text(views(markers@)),
{
    let ghost ms = views(markers@);
    let mut s = String::new();
    let mut i: usize = 0;
    assert(edl_records(ms.take(0)) =~= Seq::<Seq<char>>::empty());
    while i < markers.len()
        invariant
            i <= markers@.len(),
            ms == views(markers@),
            s@ == edl_text(ms.take(i as int)),
        decreases markers@.len() - i,
    {
        let rec = markers[i].to_edl(i + 1);
        proof {
            assert(edl_records(ms.take(i + 1)) =~= edl_records(ms.take(i as int)).push(rec@));
            edl_records(ms.take(i as int)).lemma_flatten_push(rec@);
        }
        s.append(rec.as_str());
        i = i + 1;
    }
    assert(ms.take(i as int) =~= ms);
    s
}

/// The name of the edit-list file of a session that started `start_secs`
/// seconds after the Unix epoch.
pub fn file_name(start_secs: u64) -> (r: String)
    ensures
        r@ == edl_file_name(start_secs as nat),
{
    let mut s = String::new();
    push_decimal(&mut s, start_secs);
    s.append(".edl");
    s
}

} // verus!
