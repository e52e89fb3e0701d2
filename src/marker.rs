//! Markers, their edit-list record, and the ordered collection that holds them.
use vstd::prelude::*;
use crate::timecode::{
    decimal, digit_char, hour_field, minute_field, push_zero_padded, second_field, to_timecode,
    timecode, zero_padded, zeros,
};

verus! {

/// A named point in time, in milliseconds since the session started.
pub struct Marker {
    pub time_ms: u64,
    pub name: String,
}

/// What a marker holds, as mathematical values.
pub ghost struct MarkerView {
    pub time_ms: nat,
    pub name: Seq<char>,
}

impl View for Marker {
    type V = MarkerView;

    open spec fn view(&self) -> MarkerView {
        MarkerView { time_ms: self.time_ms as nat, name: self.name@ }
    }
}

/// The views of a sequence of markers, in the same order.
pub open spec fn views(ms: Seq<Marker>) -> Seq<MarkerView> {
    ms.map_values(|m: Marker| m@)
}

/// The two-line edit-list record of marker `m` at 1-based position `index`:
/// the position padded to three digits, then the marker's timecode four times
/// with the `:00` / `:01` suffixes, then on a line that starts with a space
/// the colour, the name and the duration.
pub open spec fn edl_record(index: nat, m: MarkerView) -> Seq<char> {
    let tc = timecode(m.time_ms);
    zero_padded(index, 3) + " 001 V C "@ + tc + ":00 "@ + tc + ":01 "@ + tc + ":00 "@ + tc
        + ":01\n |C:ResolveColorBlue |M:"@ + m.name + " |D:1\n"@
}

/// Text with no line break in it.
pub open spec fn no_newline(s: Seq<char>) -> bool {
    forall|i: int| 0 <= i < s.len() ==> s[i] != '\n'
}

/// Text made of exactly two lines, each ended by a line break.
pub open spec fn is_two_lines(r: Seq<char>) -> bool {
    exists|a: Seq<char>, b: Seq<char>|
        no_newline(a) && no_newline(b) && r == a + seq!['\n'] + b + seq!['\n']
}

proof fn lemma_no_newline_concat(a: Seq<char>, b: Seq<char>)
    requires
        no_newline(a),
        no_newline(b),
    ensures
        no_newline(a + b),
{
    assert forall|i: int| 0 <= i < (a + b).len() implies (a + b)[i] != '\n' by {
        if i >= a.len() {
            assert((a + b)[i] == b[i - a.len()]);
        }
    }
}

proof fn lemma_decimal_no_newline(n: nat)
    ensures
        no_newline(decimal(n)),
    decreases n,
{
    if n >= 10 {
        lemma_decimal_no_newline(n / 10);
        lemma_no_newline_concat(decimal(n / 10), seq![digit_char(n % 10)]);
        assert(decimal(n) =~= decimal(n / 10) + seq![digit_char(n % 10)]);
    }
}

proof fn lemma_zero_padded_no_newline(n: nat, width: nat)
    ensures
        no_newline(zero_padded(n, width)),
{
    lemma_decimal_no_newline(n);
    if decimal(n).len() < width {
        lemma_no_newline_concat(zeros((width - decimal(n).len()) as nat), decimal(n));
    }
}

proof fn lemma_timecode_no_newline(ms: nat)
    ensures
        no_newline(timecode(ms)),
{
    let h = zero_padded(hour_field(ms), 2);
    let m = zero_padded(minute_field(ms), 2);
    let sec = zero_padded(second_field(ms), 2);
    lemma_zero_padded_no_newline(hour_field(ms), 2);
    lemma_zero_padded_no_newline(minute_field(ms), 2);
    lemma_zero_padded_no_newline(second_field(ms), 2);
    lemma_no_newline_concat(h, seq![':']);
    lemma_no_newline_concat(h + seq![':'], m);
    lemma_no_newline_concat(h + seq![':'] + m, seq![':']);
    lemma_no_newline_concat(h + seq![':'] + m + seq![':'], sec);
}

/// A record is two lines: where the name holds no line break, the record is
/// exactly two lines, each ended by a line break.
pub proof fn law_record_is_two_lines(index: nat, m: MarkerView)
    requires
        no_newline(m.name),
    ensures
        is_two_lines(edl_record(index, m)),
{
    reveal_strlit(" 001 V C ");
    reveal_strlit(":00 ");
    reveal_strlit(":01 ");
    reveal_strlit(":01");
    reveal_strlit(":01\n |C:ResolveColorBlue |M:");
    reveal_strlit(" |C:ResolveColorBlue |M:");
    reveal_strlit(" |D:1\n");
    reveal_strlit(" |D:1");
    let tc = timecode(m.time_ms);
    lemma_timecode_no_newline(m.time_ms);
    lemma_zero_padded_no_newline(index, 3);
    let p = zero_padded(index, 3);
    let a = p + " 001 V C "@ + tc + ":00 "@ + tc + ":01 "@ + tc + ":00 "@ + tc + ":01"@;
    let b = " |C:ResolveColorBlue |M:"@ + m.name + " |D:1"@;
    assert(no_newline(" 001 V C "@));
    assert(no_newline(":00 "@));
    assert(no_newline(":01 "@));
    assert(no_newline(":01"@));
    assert(no_newline(" |C:ResolveColorBlue |M:"@));
    assert(no_newline(" |D:1"@));
    lemma_no_newline_concat(p, " 001 V C "@);
    lemma_no_newline_concat(p + " 001 V C "@, tc);
    lemma_no_newline_concat(p + " 001 V C "@ + tc, ":00 "@);
    lemma_no_newline_concat(p + " 001 V C "@ + tc + ":00 "@, tc);
    lemma_no_newline_concat(p + " 001 V C "@ + tc + ":00 "@ + tc, ":01 "@);
    lemma_no_newline_concat(p + " 001 V C "@ + tc + ":00 "@ + tc + ":01 "@, tc);
    lemma_no_newline_concat(p + " 001 V C "@ + tc + ":00 "@ + tc + ":01 "@ + tc, ":00 "@);
    lemma_no_newline_concat(p + " 001 V C "@ + tc + ":00 "@ + tc + ":01 "@ + tc + ":00 "@, tc);
    lemma_no_newline_concat(
        p + " 001 V C "@ + tc + ":00 "@ + tc + ":01 "@ + tc + ":00 "@ + tc,
        ":01"@,
    );
    lemma_no_newline_concat(" |C:ResolveColorBlue |M:"@, m.name);
    lemma_no_newline_concat(" |C:ResolveColorBlue |M:"@ + m.name, " |D:1"@);
    assert(":01\n |C:ResolveColorBlue |M:"@ =~= ":01"@ + seq!['\n'] + " |C:ResolveColorBlue |M:"@);
    assert(" |D:1\n"@ =~= " |D:1"@ + seq!['\n']);
    assert(edl_record(index, m) =~= a + seq!['\n'] + b + seq!['\n']);
}

impl Marker {
    /// A marker at `time_ms` with the given name.
    pub fn new(time_ms: u64, name: String) -> (r: Marker)
        ensures
            r@ == (MarkerView { time_ms: time_ms as nat, name: name@ }),
    {
        Marker { time_ms, name }
    }

    /// The edit-list record of this marker at 1-based position `index`.
    pub fn to_edl(&self, index: usize) -> (r: String)
        ensures
            r@ == edl_record(index as nat, self@),
    {
        let tc = to_timecode(self.time_ms);
        let mut s = String::new();
        push_zero_padded(&mut s, index as u64, 3);
        s.append(" 001 V C ");
        s.append(tc.as_str());
        s.append(":00 ");
        s.append(tc.as_str());
        s.append(":01 ");
        s.append(tc.as_str());
        s.append(":00 ");
        s.append(tc.as_str());
        s.append(":01\n |C:ResolveColorBlue |M:");
        s.append(self.name.as_str());
        s.append(" |D:1\n");
        assert(s@ =~= edl_record(index as nat, self@));
        s
    }
}

/// Why a change to the marker collection was refused.
#[derive(Debug, Clone, Copy, PartialEq, Eq, Structural)]
pub enum MarkerError {
    /// No marker stands at the given position.
    NotFound,
}

/// The markers of the current session, in the order in which they were made.
pub struct MarkerStore {
    markers: Vec<Marker>,
}

impl View for MarkerStore {
    type V = Seq<MarkerView>;

    closed spec fn view(&self) -> Seq<MarkerView> {
        views(self.markers@)
    }
}

impl MarkerStore {
    /// An empty collection.
    pub fn new() -> (r: MarkerStore)
        ensures
            r@ == Seq::<MarkerView>::empty(),
    {
        let r = MarkerStore { markers: Vec::new() };
        assert(r@ =~= Seq::<MarkerView>::empty());
        r
    }

    /// Number of markers.
    pub fn len(&self) -> (r: usize)
        ensures
            r == self@.len(),
    {
        self.markers.len()
    }

    /// Removes every marker.
    pub fn clear(&mut self)
        ensures
            final(self)@ == Seq::<MarkerView>::empty(),
    {
        self.markers.clear();
        assert(self@ =~= Seq::<MarkerView>::empty());
    }

    /// Adds a marker at the end.
    pub fn append(&mut self, time_ms: u64, name: String)
        ensures
            final(self)@ == old(self)@.push(MarkerView { time_ms: time_ms as nat, name: name@ }),
    {
        self.markers.push(Marker::new(time_ms, name));
        assert(self@ =~= old(self)@.push(MarkerView { time_ms: time_ms as nat, name: name@ }));
    }

    /// Replaces the name of the marker at 0-based `position`, keeping its time
    /// and its place; fails with `NotFound` where no marker stands there.
    pub fn rename(&mut self, position: usize, name: String) -> (r: Result<(), MarkerError>)
        ensures
            position < old(self)@.len() ==> r is Ok && final(self)@ == old(self)@.update(
                position as int,
                MarkerView { time_ms: old(self)@[position as int].time_ms, name: name@ },
            ),
            position >= old(self)@.len() ==> r == Err::<(), MarkerError>(MarkerError::NotFound)
                && final(self)@ == old(self)@,
    {
        if position >= self.markers.len() {
            return Err(MarkerError::NotFound);
        }
        let time_ms = self.markers[position].time_ms;
        let ghost name_view = name@;
        self.markers.set(position, Marker::new(time_ms, name));
        assert(self@ =~= old(self)@.update(
            position as int,
            MarkerView { time_ms: time_ms as nat, name: name_view },
        ));
        Ok(())
    }

    /// The markers, read-only, in order.
    pub fn snapshot(&self) -> (r: &Vec<Marker>)
        ensures
            views(r@) == self@,
    {
        &self.markers
    }
}

} // verus!
