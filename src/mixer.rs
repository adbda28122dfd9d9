//! Reading the audio mixer's listings of streams ("sink inputs").
//!
//! The long listing holds one record per stream: a header line
//! `Sink Input #<id>` followed by attribute lines, among them
//! `application.name = "..."` and `application.process.binary = "..."`.
//! The short listing holds one line per stream, its id first.

use vstd::prelude::*;
use vstd::slice::slice_to_vec;
use vstd::string::*;
use crate::bytes::{
    bytes_contain, bytes_prefix, line_at, line_bounds, lines, lines_from, parsed_number,
    quoted_field, range_contains, range_number, range_quoted, range_starts_with,
};

verus! {

/// The text that opens a stream's record in the long listing.
pub open spec fn record_tag() -> Seq<u8> {
    "Sink Input #".spec_bytes()
}

/// The attribute that names a stream's process binary.
pub open spec fn binary_key() -> Seq<u8> {
    "application.process.binary".spec_bytes()
}

/// The attribute that names a stream's application.
pub open spec fn name_key() -> Seq<u8> {
    "application.name".spec_bytes()
}

/// The id that a record's header line gives, if the line is a header.
pub open spec fn header_id(line: Seq<u8>) -> Option<usize> {
    parsed_number(line.subrange(record_tag().len() as int, line.len() as int))
}

/// While reading the long listing: the ids kept so far, the id of the open
/// record, and whether that record belongs to the application sought.
pub type ScanState = (Seq<usize>, Option<usize>, bool);

/// The ids kept once the open record is closed.
pub open spec fn close_record(st: ScanState) -> Seq<usize> {
    if st.2 && st.1 is Some {
        st.0.push(st.1->0)
    } else {
        st.0
    }
}

/// Reads one line: a header closes the open record and opens another; a
/// binary attribute naming `binary` marks the open record.
pub open spec fn scan_step(st: ScanState, line: Seq<u8>, binary: Seq<u8>) -> ScanState {
    if bytes_prefix(record_tag(), line) {
        (close_record(st), header_id(line), false)
    } else if bytes_contain(line, binary_key()) && quoted_field(line) == Some(binary) {
        (st.0, st.1, true)
    } else {
        st
    }
}

/// The ids kept after reading `ls` from state `st`.
pub open spec fn scan(ls: Seq<Seq<u8>>, st: ScanState, binary: Seq<u8>) -> Seq<usize>
    decreases ls.len(),
{
    if ls.len() == 0 {
        close_record(st)
    } else {
        scan(ls.drop_first(), scan_step(st, ls[0], binary), binary)
    }
}

/// The ids of the streams whose process binary is `binary`, in listing order.
pub open spec fn app_stream_ids(listing: Seq<u8>, binary: Seq<u8>) -> Seq<usize> {
    scan(lines(listing), (seq![], None, false), binary)
}

/// Collects, in listing order, the ids of the streams of the long listing
/// whose process binary is `binary`.
pub fn sink_inputs_of_app(listing: &[u8], binary: &[u8]) -> (r: Vec<usize>)
    ensures
        r@ == app_stream_ids(listing@, binary@),
{
    let tag = "Sink Input #".as_bytes();
    let key = "application.process.binary".as_bytes();
    let mut ids: Vec<usize> = Vec::new();
    let mut current: Option<usize> = None;
    let mut matching = false;
    let mut pos: usize = 0;
    while pos < listing.len()
        invariant
            pos <= listing@.len(),
            tag@ == record_tag(),
            key@ == binary_key(),
            app_stream_ids(listing@, binary@) == scan(
                lines_from(listing@, pos as int),
                (ids@, current, matching),
                binary@,
            ),
        decreases listing.len() - pos,
    {
        let (end, next) = line_bounds(listing, pos);
        let ghost line = line_at(listing@, pos as int);
        let ghost st: ScanState = (ids@, current, matching);
        assert((seq![line] + lines_from(listing@, next as int)).drop_first() =~= lines_from(
            listing@,
            next as int,
        ));
        if range_starts_with(listing, pos, end, tag) {
            if matching {
                if let Some(id) = current {
                    ids.push(id);
                }
            }
            assert(line.subrange(record_tag().len() as int, line.len() as int) =~= listing@.subrange(
                pos + tag@.len(),
                end as int,
            ));
            current = range_number(listing, pos + tag.len(), end);
            matching = false;
        } else if range_contains(listing, pos, end, key) {
            match range_quoted(listing, pos, end) {
                Some((x, y)) => {
                    if y - x == binary.len() && range_starts_with(listing, x, y, binary) {
                        assert(listing@.subrange(x as int, y as int).subrange(0, binary@.len() as int)
                            =~= listing@.subrange(x as int, y as int));
                        matching = true;
                    } else {
                        assert(listing@.subrange(x as int, y as int) != binary@) by {
                            if y - x == binary@.len() {
                                assert(listing@.subrange(x as int, y as int).subrange(
                                    0,
                                    binary@.len() as int,
                                ) =~= listing@.subrange(x as int, y as int));
                            }
                        }
                    }
                },
                None => {},
            }
        }
        assert(scan_step(st, line, binary@) == (ids@, current, matching));
        pos = next;
    }
    assert(lines_from(listing@, pos as int) =~= seq![]);
    if matching {
        if let Some(id) = current {
            ids.push(id);
        }
    }
    ids
}

/// ASCII white space, as the short listing separates its fields.
pub open spec fn is_space(b: u8) -> bool {
    b == 32 || (9 <= b <= 13)
}

/// Index of the first byte of `l` at or after `from` that is (or, with
/// `space == false`, is not) white space, or the length of `l`.
pub open spec fn find_class(l: Seq<u8>, from: int, space: bool) -> int
    decreases l.len() - from,
{
    if from < 0 || from >= l.len() {
        l.len() as int
    } else if is_space(l[from]) == space {
        from
    } else {
        find_class(l, from + 1, space)
    }
}

/// The first white-space-separated field of `l` (empty where it has none).
pub open spec fn first_field(l: Seq<u8>) -> Seq<u8> {
    let s = find_class(l, 0, false);
    l.subrange(s, find_class(l, s, true))
}

/// One entry for each non-empty line of the short listing: the id its first
/// field gives, if it gives one.
pub open spec fn short_entries(ls: Seq<Seq<u8>>) -> Seq<Option<usize>>
    decreases ls.len(),
{
    if ls.len() == 0 {
        seq![]
    } else {
        (if ls[0].len() == 0 {
            seq![]
        } else {
            seq![parsed_number(first_field(ls[0]))]
        }) + short_entries(ls.drop_first())
    }
}

proof fn lemma_find_class(l: Seq<u8>, from: int, space: bool)
    requires
        0 <= from <= l.len(),
    ensures
        from <= find_class(l, from, space) <= l.len(),
        find_class(l, from, space) < l.len() ==> is_space(l[find_class(l, from, space)])
            == space,
        forall|k: int| from <= k < find_class(l, from, space) ==> is_space(l[k]) != space,
    decreases l.len() - from,
{
    if from < l.len() && is_space(l[from]) != space {
        lemma_find_class(l, from + 1, space);
    }
}

/// Finds, in `t[a..b]`, from `from` on, the first byte that is (or is not)
/// white space.
fn range_find_class(t: &[u8], a: usize, b: usize, from: usize, space: bool) -> (r: usize)
    requires
        a <= from <= b <= t@.len(),
    ensures
        r == a + find_class(t@.subrange(a as int, b as int), from - a, space),
        from <= r <= b,
{
    let ghost l = t@.subrange(a as int, b as int);
    let mut i: usize = from;
    while i < b && ((t[i] == 32 || (9 <= t[i] && t[i] <= 13)) != space)
        invariant
            from <= i <= b <= t@.len(),
            forall|k: int| from <= k < i ==> is_space(t@[k]) != space,
        decreases b - i,
    {
        i += 1;
    }
    proof {
        lemma_find_class(l, from - a, space);
        let f = find_class(l, from - a, space);
        if f < i - a {
            assert(is_space(t@[a + f]) != space);
        }
        if i - a < f {
            assert(is_space(l[i - a]) != space);
        }
    }
    i
}

/// Reads the short listing: for each non-empty line, in order, the id that
/// its first field gives, if it gives one.
pub fn short_listing_ids(listing: &[u8]) -> (r: Vec<Option<usize>>)
    ensures
        r@ == short_entries(lines(listing@)),
{
    let mut out: Vec<Option<usize>> = Vec::new();
    let mut pos: usize = 0;
    while pos < listing.len()
        invariant
            pos <= listing@.len(),
            short_entries(lines(listing@)) == out@ + short_entries(lines_from(listing@, pos as int)),
        decreases listing.len() - pos,
    {
        let (end, next) = line_bounds(listing, pos);
        let ghost line = line_at(listing@, pos as int);
        let ghost ls = lines_from(listing@, pos as int);
        assert(ls.drop_first() =~= lines_from(listing@, next as int));
        assert(ls[0] == line);
        if end > pos {
            let s = range_find_class(listing, pos, end, pos, false);
            let e = range_find_class(listing, pos, end, s, true);
            assert(listing@.subrange(s as int, e as int) =~= first_field(line));
            let entry = range_number(listing, s, e);
            let ghost before = out@;
            out.push(entry);
            assert(out@ + short_entries(lines_from(listing@, next as int)) =~= before
                + short_entries(ls));
        } else {
            assert(out@ + short_entries(lines_from(listing@, next as int)) =~= out@ + short_entries(
                ls,
            ));
        }
        pos = next;
    }
    assert(lines_from(listing@, pos as int) =~= seq![]);
    assert(out@ + seq![] =~= out@);
    out
}

/// `line` is the header of the record of stream `id`.
pub open spec fn is_header_of(line: Seq<u8>, id: usize) -> bool {
    bytes_prefix(record_tag(), line) && header_id(line) == Some(id)
}

/// The lines from the header of stream `id` on (none where it has no header).
pub open spec fn from_header(ls: Seq<Seq<u8>>, id: usize) -> Seq<Seq<u8>>
    decreases ls.len(),
{
    if ls.len() == 0 {
        seq![]
    } else if is_header_of(ls[0], id) {
        ls
    } else {
        from_header(ls.drop_first(), id)
    }
}

/// The quoted value of the first of `ls` that mentions `key`.
pub open spec fn first_attribute(ls: Seq<Seq<u8>>, key: Seq<u8>) -> Option<Seq<u8>>
    decreases ls.len(),
{
    if ls.len() == 0 {
        None
    } else if bytes_contain(ls[0], key) {
        quoted_field(ls[0])
    } else {
        first_attribute(ls.drop_first(), key)
    }
}

/// The attribute `key` of stream `id` in the long listing: the quoted value
/// of the first line, from the stream's header on, that mentions `key`.
pub open spec fn stream_attribute(listing: Seq<u8>, id: usize, key: Seq<u8>) -> Option<Seq<u8>> {
    first_attribute(from_header(lines(listing), id), key)
}

/// Finds where the header of stream `id` starts.
fn find_header(t: &[u8], id: usize) -> (r: Option<usize>)
    ensures
        match r {
            Some(p) => p < t@.len() && from_header(lines(t@), id) == lines_from(t@, p as int),
            None => from_header(lines(t@), id) == Seq::<Seq<u8>>::empty(),
        },
{
    let tag = "Sink Input #".as_bytes();
    let mut pos: usize = 0;
    while pos < t.len()
        invariant
            pos <= t@.len(),
            tag@ == record_tag(),
            from_header(lines(t@), id) == from_header(lines_from(t@, pos as int), id),
        decreases t.len() - pos,
    {
        let (end, next) = line_bounds(t, pos);
        let ghost line = line_at(t@, pos as int);
        let ghost ls = lines_from(t@, pos as int);
        assert(ls.drop_first() =~= lines_from(t@, next as int));
        assert(ls[0] == line);
        if range_starts_with(t, pos, end, tag) {
            assert(line.subrange(record_tag().len() as int, line.len() as int) =~= t@.subrange(
                pos + tag@.len(),
                end as int,
            ));
            if range_number(t, pos + tag.len(), end) == Some(id) {
                return Some(pos);
            }
        }
        pos = next;
    }
    assert(lines_from(t@, pos as int) =~= seq![]);
    None
}

/// Finds, from the line at `pos` on, the quoted value of the first line that
/// mentions `key`, as a range of `t`.
fn find_attribute(t: &[u8], from: usize, key: &[u8]) -> (r: Option<(usize, usize)>)
    requires
        from <= t@.len(),
    ensures
        match r {
            Some((x, y)) => x <= y <= t@.len() && first_attribute(lines_from(t@, from as int), key@)
                == Some(t@.subrange(x as int, y as int)),
            None => first_attribute(lines_from(t@, from as int), key@) is None,
        },
{
    let mut pos = from;
    while pos < t.len()
        invariant
            from <= pos <= t@.len(),
            first_attribute(lines_from(t@, from as int), key@) == first_attribute(
                lines_from(t@, pos as int),
                key@,
            ),
        decreases t.len() - pos,
    {
        let (end, next) = line_bounds(t, pos);
        let ghost ls = lines_from(t@, pos as int);
        assert(ls.drop_first() =~= lines_from(t@, next as int));
        assert(ls[0] == t@.subrange(pos as int, end as int));
        if range_contains(t, pos, end, key) {
            assert(ls.len() > 0);
            assert(first_attribute(ls, key@) == quoted_field(ls[0]));
            let q = range_quoted(t, pos, end);
            return q;
        }
        pos = next;
    }
    assert(lines_from(t@, pos as int) =~= seq![]);
    None
}

/// The value of attribute `key` of stream `id` in the long listing.
pub fn stream_attribute_of(listing: &[u8], id: usize, key: &[u8]) -> (r: Option<Vec<u8>>)
    ensures
        match r {
            Some(v) => stream_attribute(listing@, id, key@) == Some(v@),
            None => stream_attribute(listing@, id, key@) is None,
        },
{
    match find_header(listing, id) {
        Some(p) => match find_attribute(listing, p, key) {
            Some((x, y)) => {
                let mut v: Vec<u8> = Vec::new();
                let mut i: usize = x;
                while i < y
                    invariant
                        x <= i <= y <= listing@.len(),
                        v@ == listing@.subrange(x as int, i as int),
                    decreases y - i,
                {
                    v.push(listing[i]);
                    assert(v@ =~= listing@.subrange(x as int, i + 1));
                    i += 1;
                }
                Some(v)
            },
            None => None,
        },
        None => None,
    }
}

/// The application of a stream, as the long listing names it.
pub struct StreamApp {
    /// The application's name, `Unknown` where the listing gives none.
    pub name: Vec<u8>,
    /// The application's process binary, empty where the listing gives none.
    pub binary: Vec<u8>,
}

/// An attribute's value, or `default` where there is none.
pub open spec fn value_or(v: Option<Seq<u8>>, default: Seq<u8>) -> Seq<u8> {
    match v {
        Some(x) => x,
        None => default,
    }
}

/// Reads the application name and process binary of stream `id` from the
/// long listing.
pub fn stream_app(listing: &[u8], id: usize) -> (r: StreamApp)
    ensures
        r.name@ == value_or(stream_attribute(listing@, id, name_key()), "Unknown".spec_bytes()),
        r.binary@ == value_or(stream_attribute(listing@, id, binary_key()), seq![]),
{
    let name = match stream_attribute_of(listing, id, "application.name".as_bytes()) {
        Some(v) => v,
        None => slice_to_vec("Unknown".as_bytes()),
    };
    let binary = match stream_attribute_of(listing, id, "application.process.binary".as_bytes()) {
        Some(v) => v,
        None => Vec::new(),
    };
    StreamApp { name, binary }
}

} // verus!

