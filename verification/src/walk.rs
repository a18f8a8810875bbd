//! Walking the chain of directories and turning their entries into fields.

use crate::bytes::{encode_u32, lemma_u32_round_trip, ByteOrder};
use crate::error::DecodeError;
use crate::ifd::{read_ifd, spec_read_ifd, IfdEntry};
use crate::value::{
    decode_value, longs_of, spec_decode_value, value_bytes, Value, ValueView, TYPE_LONG,
};
use vstd::prelude::*;

verus! {

/// The tag of the entry that points to the directory of EXIF-specific fields.
pub const EXIF_POINTER: u16 = 0x8769;

/// The tag of the entry that points to the directory of GPS fields.
pub const GPS_POINTER: u16 = 0x8825;

/// How many pointers the walk follows one after another, starting from the
/// first directory, before it gives up.
pub const MAX_DEPTH: u8 = 4;

/// The group of tags that a directory holds. A tag number names a field
/// only together with its group.
#[derive(Clone, Copy, Debug, PartialEq, Eq, Hash, Structural)]
pub enum Group {
    /// The tags of TIFF itself: the first directory and those linked to it.
    Tiff,
    /// The EXIF-specific tags: the directory that the EXIF pointer leads to.
    Exif,
    /// The GPS tags: the directory that the GPS pointer leads to.
    Gps,
}

/// One decoded field: the group of its directory, the tag that names it in
/// that group, the type it was stored with and its value.
#[derive(Clone, Debug, PartialEq, Eq)]
pub struct Field {
    pub group: Group,
    pub tag: u16,
    pub data_type: u16,
    pub value: Value,
}

/// The mathematical content of a `Field`.
pub struct FieldView {
    pub group: Group,
    pub tag: u16,
    pub data_type: u16,
    pub value: ValueView,
}

impl View for Field {
    type V = FieldView;

    open spec fn view(&self) -> FieldView {
        FieldView {
            group: self.group,
            tag: self.tag,
            data_type: self.data_type,
            value: self.value@,
        }
    }
}

/// The contents of a sequence of fields, in the same order.
pub open spec fn views(fields: Seq<Field>) -> Seq<FieldView> {
    Seq::new(fields.len(), |i: int| fields[i]@)
}

/// The value that the field of an entry has.
///
/// An entry whose type or count the format does not define has the value
/// `Unsupported`. An entry whose value reaches past the end of `tiff` has
/// none: the error is `Truncated`, and it ends the walk, for the offsets of
/// a structure that was cut short cannot be relied on.
pub open spec fn field_value(order: ByteOrder, tiff: Seq<u8>, e: IfdEntry) -> Result<
    ValueView,
    DecodeError,
> {
    match spec_decode_value(order, tiff, e) {
        Ok(value) => Ok(value),
        Err(DecodeError::UnsupportedFieldType) => Ok(ValueView::Unsupported),
        Err(err) => Err(err),
    }
}

/// The field that an entry of a directory of the given group decodes to:
/// the tag and the type of the entry, with the value of its field.
pub open spec fn spec_decode_field(order: ByteOrder, tiff: Seq<u8>, e: IfdEntry, group: Group)
    -> Result<FieldView, DecodeError> {
    match field_value(order, tiff, e) {
        Ok(value) => Ok(FieldView { group, tag: e.tag, data_type: e.data_type, value }),
        Err(err) => Err(err),
    }
}

/// The first element of a value of unsigned integers, if it is one and has
/// an element.
pub open spec fn first_unsigned(v: ValueView) -> Option<u32> {
    match v {
        ValueView::Byte(xs) => if xs.len() > 0 {
            Some(xs[0] as u32)
        } else {
            None
        },
        ValueView::Short(xs) => if xs.len() > 0 {
            Some(xs[0] as u32)
        } else {
            None
        },
        ValueView::Long(xs) => if xs.len() > 0 {
            Some(xs[0])
        } else {
            None
        },
        _ => None,
    }
}

/// The directory that a tag and a value point to, if they point to one:
/// where it starts and which group of tags it holds. The tag is that of the
/// EXIF or of the GPS pointer, and the value gives an offset, the first of
/// its unsigned integers, that is not 0.
pub open spec fn pointer(tag: u16, value: ValueView) -> Option<(u32, Group)> {
    match first_unsigned(value) {
        Some(offset) => if offset == 0 {
            None
        } else if tag == EXIF_POINTER {
            Some((offset, Group::Exif))
        } else if tag == GPS_POINTER {
            Some((offset, Group::Gps))
        } else {
            None
        },
        None => None,
    }
}

/// The directory that a field points to, if it points to one.
pub open spec fn sub_directory(f: FieldView) -> Option<(u32, Group)> {
    pointer(f.tag, f.value)
}

/// The result of following a pointer from a directory at `depth`: a
/// `MalformedDirectory` when the walk is already `MAX_DEPTH` pointers away
/// from the first directory, else the fields of the chain that starts at
/// `offset` and holds tags of the given group.
pub open spec fn spec_follow(
    order: ByteOrder,
    tiff: Seq<u8>,
    offset: u32,
    depth: nat,
    group: Group,
) -> Result<Seq<FieldView>, DecodeError>
    decreases MAX_DEPTH - depth, 0nat, 0nat,
{
    if depth >= MAX_DEPTH {
        Err(DecodeError::MalformedDirectory)
    } else {
        spec_walk(order, tiff, offset, depth + 1, group)
    }
}

/// The field of one entry, followed by the fields of the directory that the
/// field points to, if it points to one.
pub open spec fn spec_walk_entry(
    order: ByteOrder,
    tiff: Seq<u8>,
    e: IfdEntry,
    depth: nat,
    group: Group,
) -> Result<Seq<FieldView>, DecodeError>
    decreases MAX_DEPTH - depth, 1nat, 0nat,
{
    match spec_decode_field(order, tiff, e, group) {
        Err(err) => Err(err),
        Ok(field) => match sub_directory(field) {
            None => Ok(seq![field]),
            Some((offset, below)) => prepend(
                seq![field],
                spec_follow(order, tiff, offset, depth, below),
            ),
        },
    }
}

/// The fields of the entries from index `from` on, each directly followed
/// by the fields of the directory that it points to.
pub open spec fn spec_walk_entries(
    order: ByteOrder,
    tiff: Seq<u8>,
    entries: Seq<IfdEntry>,
    from: int,
    depth: nat,
    group: Group,
) -> Result<Seq<FieldView>, DecodeError>
    decreases MAX_DEPTH - depth, 2nat, entries.len() - from,
{
    if from < 0 || from >= entries.len() {
        Ok(Seq::empty())
    } else {
        match spec_walk_entry(order, tiff, entries[from], depth, group) {
            Err(e) => Err(e),
            Ok(fields) => prepend(
                fields,
                spec_walk_entries(order, tiff, entries, from + 1, depth, group),
            ),
        }
    }
}

/// The fields of the directory at `offset`, which holds tags of the given
/// group, and of every directory reached from it, in the order of the walk:
/// each entry's field, directly followed by the fields of the directory
/// that the entry points to, and after the last entry the fields of the
/// next directory of the chain, which holds tags of the same group.
///
/// The walk ends with the first error it meets.
pub open spec fn spec_walk(
    order: ByteOrder,
    tiff: Seq<u8>,
    offset: u32,
    depth: nat,
    group: Group,
) -> Result<Seq<FieldView>, DecodeError>
    decreases MAX_DEPTH - depth, 3nat, 0nat,
{
    match spec_read_ifd(order, tiff, offset as int) {
        Err(e) => Err(e),
        Ok((entries, next)) => match spec_walk_entries(order, tiff, entries, 0, depth, group) {
            Err(e) => Err(e),
            Ok(fields) => if next == 0 {
                Ok(fields)
            } else {
                prepend(fields, spec_follow(order, tiff, next, depth, group))
            },
        },
    }
}

/// Fields put in front of the outcome of the rest of a walk.
pub open spec fn prepend(done: Seq<FieldView>, rest: Result<Seq<FieldView>, DecodeError>)
    -> Result<Seq<FieldView>, DecodeError> {
    match rest {
        Ok(fields) => Ok(done + fields),
        Err(e) => Err(e),
    }
}

proof fn lemma_prepend_twice(
    a: Seq<FieldView>,
    b: Seq<FieldView>,
    rest: Result<Seq<FieldView>, DecodeError>,
)
    ensures
        prepend(a, prepend(b, rest)) == prepend(a + b, rest),
{
    if let Ok(fields) = rest {
        assert(a + (b + fields) =~= (a + b) + fields);
    }
}

/// What the walk makes of the entries from index `i` on: the fields of the
/// entry at `i`, then what it makes of the entries after it.
pub proof fn lemma_walk_entries_step(
    order: ByteOrder,
    tiff: Seq<u8>,
    entries: Seq<IfdEntry>,
    i: int,
    depth: nat,
    group: Group,
)
    requires
        0 <= i < entries.len(),
    ensures
        spec_walk_entries(order, tiff, entries, i, depth, group) == match spec_walk_entry(
            order,
            tiff,
            entries[i],
            depth,
            group,
        ) {
            Err(e) => Err(e),
            Ok(fields) => prepend(
                fields,
                spec_walk_entries(order, tiff, entries, i + 1, depth, group),
            ),
        },
{
}

/// Whether an entry gives a field and points to no directory.
pub open spec fn is_plain(order: ByteOrder, tiff: Seq<u8>, e: IfdEntry) -> bool {
    field_value(order, tiff, e) is Ok && pointer(e.tag, field_value(order, tiff, e)->Ok_0) is None
}

/// Whether an entry gives a field that points to the directory at `offset`.
pub open spec fn points_to(order: ByteOrder, tiff: Seq<u8>, e: IfdEntry, offset: u32) -> bool {
    &&& field_value(order, tiff, e) is Ok
    &&& pointer(e.tag, field_value(order, tiff, e)->Ok_0) is Some
    &&& pointer(e.tag, field_value(order, tiff, e)->Ok_0)->Some_0.0 == offset
}

/// The fields of the entries from index `from` up to, not including, `to`,
/// of a directory of the given group.
pub open spec fn plain_fields(
    order: ByteOrder,
    tiff: Seq<u8>,
    entries: Seq<IfdEntry>,
    from: int,
    to: int,
    group: Group,
) -> Seq<FieldView> {
    Seq::new(
        (to - from) as nat,
        |k: int| spec_decode_field(order, tiff, entries[from + k], group)->Ok_0,
    )
}

/// A run of entries that give a field each and point nowhere contributes
/// exactly those fields, in order, whatever comes after the run.
pub proof fn lemma_walk_plain_run(
    order: ByteOrder,
    tiff: Seq<u8>,
    entries: Seq<IfdEntry>,
    from: int,
    to: int,
    depth: nat,
    group: Group,
)
    requires
        0 <= from <= to <= entries.len(),
        forall|i: int| from <= i < to ==> is_plain(order, tiff, #[trigger] entries[i]),
    ensures
        spec_walk_entries(order, tiff, entries, from, depth, group) == prepend(
            plain_fields(order, tiff, entries, from, to, group),
            spec_walk_entries(order, tiff, entries, to, depth, group),
        ),
    decreases to - from,
{
    let rest = spec_walk_entries(order, tiff, entries, to, depth, group);
    if from == to {
        if let Ok(fields) = rest {
            assert(plain_fields(order, tiff, entries, from, to, group) + fields =~= fields);
        }
    } else {
        lemma_walk_plain_run(order, tiff, entries, from + 1, to, depth, group);
        lemma_walk_entries_step(order, tiff, entries, from, depth, group);
        assert(is_plain(order, tiff, entries[from]));
        let head = seq![spec_decode_field(order, tiff, entries[from], group)->Ok_0];
        let tail = plain_fields(order, tiff, entries, from + 1, to, group);
        lemma_prepend_twice(head, tail, rest);
        assert(head + tail =~= plain_fields(order, tiff, entries, from, to, group));
    }
}

/// A directory that holds a pointer to itself cannot be walked: if the
/// entries in front of the pointer give a field each and point nowhere, the
/// walk follows the pointer until it is too deep and ends as a
/// `MalformedDirectory`, at whatever depth and with whatever group of tags
/// it started.
pub proof fn lemma_walk_cycle(
    order: ByteOrder,
    tiff: Seq<u8>,
    offset: u32,
    k: int,
    depth: nat,
    group: Group,
)
    requires
        spec_read_ifd(order, tiff, offset as int) is Ok,
        0 <= k < spec_read_ifd(order, tiff, offset as int)->Ok_0.0.len(),
        forall|i: int|
            0 <= i < k ==> is_plain(
                order,
                tiff,
                #[trigger] spec_read_ifd(order, tiff, offset as int)->Ok_0.0[i],
            ),
        points_to(order, tiff, spec_read_ifd(order, tiff, offset as int)->Ok_0.0[k], offset),
    ensures
        spec_walk(order, tiff, offset, depth, group) == Err::<Seq<FieldView>, DecodeError>(
            DecodeError::MalformedDirectory,
        ),
    decreases MAX_DEPTH - depth,
{
    let entries = spec_read_ifd(order, tiff, offset as int)->Ok_0.0;
    lemma_walk_plain_run(order, tiff, entries, 0, k, depth, group);
    lemma_walk_entries_step(order, tiff, entries, k, depth, group);
    let below = pointer(entries[k].tag, field_value(order, tiff, entries[k])->Ok_0)->Some_0.1;
    if depth < MAX_DEPTH {
        lemma_walk_cycle(order, tiff, offset, k, depth + 1, below);
    }
}

/// Whether an outcome of a walk is one that a walk can have: fields, or one
/// of the two errors of a directory.
pub open spec fn is_walk_outcome(r: Result<Seq<FieldView>, DecodeError>) -> bool {
    match r {
        Ok(_) => true,
        Err(e) => e == DecodeError::Truncated || e == DecodeError::MalformedDirectory,
    }
}

/// A walk ends with fields, as `Truncated` or as a `MalformedDirectory`,
/// and in no other way. In particular a field whose type or count the
/// format does not define never ends it.
pub proof fn lemma_walk_outcome(
    order: ByteOrder,
    tiff: Seq<u8>,
    offset: u32,
    depth: nat,
    group: Group,
)
    ensures
        is_walk_outcome(spec_walk(order, tiff, offset, depth, group)),
    decreases MAX_DEPTH - depth, 3nat, 0nat,
{
    if let Ok((entries, next)) = spec_read_ifd(order, tiff, offset as int) {
        lemma_walk_entries_outcome(order, tiff, entries, 0, depth, group);
        if next != 0 && depth < MAX_DEPTH {
            lemma_walk_outcome(order, tiff, next, depth + 1, group);
        }
    }
}

proof fn lemma_walk_entries_outcome(
    order: ByteOrder,
    tiff: Seq<u8>,
    entries: Seq<IfdEntry>,
    from: int,
    depth: nat,
    group: Group,
)
    ensures
        is_walk_outcome(spec_walk_entries(order, tiff, entries, from, depth, group)),
    decreases MAX_DEPTH - depth, 2nat, entries.len() - from,
{
    if 0 <= from < entries.len() {
        lemma_walk_entries_step(order, tiff, entries, from, depth, group);
        lemma_walk_entry_outcome(order, tiff, entries[from], depth, group);
        lemma_walk_entries_outcome(order, tiff, entries, from + 1, depth, group);
    }
}

proof fn lemma_walk_entry_outcome(
    order: ByteOrder,
    tiff: Seq<u8>,
    e: IfdEntry,
    depth: nat,
    group: Group,
)
    ensures
        is_walk_outcome(spec_walk_entry(order, tiff, e, depth, group)),
    decreases MAX_DEPTH - depth, 1nat, 0nat,
{
    match spec_decode_field(order, tiff, e, group) {
        Ok(field) => {
            if let Some((target, below)) = sub_directory(field) {
                if depth < MAX_DEPTH {
                    lemma_walk_outcome(order, tiff, target, depth + 1, below);
                }
            }
        },
        Err(err) => {
            assert(spec_decode_value(order, tiff, e) == Err::<ValueView, DecodeError>(err));
            assert(err == DecodeError::Truncated);
        },
    }
}

/// An entry with the tag of a pointer that holds a single 32-bit integer
/// other than 0 points to the directory at that offset.
pub proof fn lemma_long_pointer(order: ByteOrder, tiff: Seq<u8>, e: IfdEntry)
    requires
        e.tag == EXIF_POINTER || e.tag == GPS_POINTER,
        e.data_type == TYPE_LONG,
        e.count == 1,
        e.value_or_offset != 0,
    ensures
        points_to(order, tiff, e, e.value_or_offset),
{
    let slot = encode_u32(order, e.value_or_offset);
    lemma_u32_round_trip(order, e.value_or_offset);
    assert(value_bytes(order, tiff, e) =~= slot);
    assert(longs_of(order, slot, 1)[0] == e.value_or_offset);
}

proof fn lemma_views_push(fields: Seq<Field>, f: Field)
    ensures
        views(fields.push(f)) == views(fields) + seq![f@],
{
    assert(views(fields.push(f)) =~= views(fields) + seq![f@]);
}

proof fn lemma_views_add(a: Seq<Field>, b: Seq<Field>)
    ensures
        views(a + b) == views(a) + views(b),
{
    assert(views(a + b) =~= views(a) + views(b));
}

/// Decodes one entry of a directory of the given group into a field.
pub fn decode_field(order: ByteOrder, tiff: &[u8], entry: &IfdEntry, group: Group) -> (r: Result<
    Field,
    DecodeError,
>)
    ensures
        match r {
            Ok(f) => spec_decode_field(order, tiff@, *entry, group) == Ok::<
                FieldView,
                DecodeError,
            >(f@),
            Err(e) => spec_decode_field(order, tiff@, *entry, group) == Err::<
                FieldView,
                DecodeError,
            >(e),
        },
{
    match decode_value(order, tiff, entry) {
        Ok(value) => Ok(Field { group, tag: entry.tag, data_type: entry.data_type, value }),
        Err(DecodeError::UnsupportedFieldType) => Ok(
            Field {
                group,
                tag: entry.tag,
                data_type: entry.data_type,
                value: Value::Unsupported,
            },
        ),
        Err(e) => Err(e),
    }
}

/// The first element of a value of unsigned integers.
pub fn first_unsigned_of(value: &Value) -> (r: Option<u32>)
    ensures
        r == first_unsigned(value@),
{
    match value {
        Value::Byte(xs) => if xs.len() > 0 {
            Some(xs[0] as u32)
        } else {
            None
        },
        Value::Short(xs) => if xs.len() > 0 {
            Some(xs[0] as u32)
        } else {
            None
        },
        Value::Long(xs) => if xs.len() > 0 {
            Some(xs[0])
        } else {
            None
        },
        _ => None,
    }
}

/// Tells whether a field points to a directory, where that starts and
/// which group of tags it holds.
pub fn pointer_target(field: &Field) -> (r: Option<(u32, Group)>)
    ensures
        r == sub_directory(field@),
{
    match first_unsigned_of(&field.value) {
        Some(offset) => if offset == 0 {
            None
        } else if field.tag == EXIF_POINTER {
            Some((offset, Group::Exif))
        } else if field.tag == GPS_POINTER {
            Some((offset, Group::Gps))
        } else {
            None
        },
        None => None,
    }
}

/// Follows a pointer from a directory at `depth` and appends the fields
/// found there to `fields`.
fn follow(
    order: ByteOrder,
    tiff: &[u8],
    offset: u32,
    depth: u8,
    group: Group,
    fields: &mut Vec<Field>,
) -> (r: Result<(), DecodeError>)
    ensures
        match r {
            Ok(()) => prepend(
                views(old(fields)@),
                spec_follow(order, tiff@, offset, depth as nat, group),
            ) == Ok::<Seq<FieldView>, DecodeError>(views(final(fields)@)),
            Err(e) => spec_follow(order, tiff@, offset, depth as nat, group) == Err::<
                Seq<FieldView>,
                DecodeError,
            >(e),
        },
    decreases MAX_DEPTH - depth, 0nat,
{
    if depth >= MAX_DEPTH {
        return Err(DecodeError::MalformedDirectory);
    }
    let mut found = match walk_directory(order, tiff, offset, depth + 1, group) {
        Ok(found) => found,
        Err(e) => {
            return Err(e);
        },
    };
    proof {
        lemma_views_add(fields@, found@);
    }
    fields.append(&mut found);
    Ok(())
}

/// Walks the directory at `offset`, which is `depth` pointers away from the
/// first directory and holds tags of the given group, and everything that
/// is reached from it.
pub fn walk_directory(order: ByteOrder, tiff: &[u8], offset: u32, depth: u8, group: Group) -> (r:
    Result<Vec<Field>, DecodeError>)
    ensures
        match r {
            Ok(fields) => spec_walk(order, tiff@, offset, depth as nat, group) == Ok::<
                Seq<FieldView>,
                DecodeError,
            >(views(fields@)),
            Err(e) => spec_walk(order, tiff@, offset, depth as nat, group) == Err::<
                Seq<FieldView>,
                DecodeError,
            >(e),
        },
    decreases MAX_DEPTH - depth, 1nat,
{
    let dir = match read_ifd(order, tiff, offset) {
        Ok(dir) => dir,
        Err(e) => {
            return Err(e);
        },
    };
    let ghost entries = dir.entries@;
    let ghost level = depth as nat;
    let mut fields: Vec<Field> = Vec::new();
    let mut i: usize = 0;
    proof {
        assert(views(fields@) =~= Seq::<FieldView>::empty());
        lemma_prepend_twice(
            Seq::empty(),
            Seq::empty(),
            spec_walk_entries(order, tiff@, entries, 0, level, group),
        );
        assert(Seq::<FieldView>::empty() + Seq::<FieldView>::empty() =~= Seq::<
            FieldView,
        >::empty());
    }
    while i < dir.entries.len()
        invariant
            i <= dir.entries@.len(),
            entries == dir.entries@,
            level == depth as nat,
            spec_read_ifd(order, tiff@, offset as int) == Ok::<(Seq<IfdEntry>, u32), DecodeError>(
                (entries, dir.next_offset),
            ),
            spec_walk_entries(order, tiff@, entries, 0, level, group) == prepend(
                views(fields@),
                spec_walk_entries(order, tiff@, entries, i as int, level, group),
            ),
        decreases dir.entries@.len() - i,
    {
        let entry = dir.entries[i];
        assert(entry == entries[i as int]);
        let ghost before = views(fields@);
        let ghost rest = spec_walk_entries(order, tiff@, entries, i + 1, level, group);
        proof {
            lemma_walk_entries_step(order, tiff@, entries, i as int, level, group);
        }
        let field = match decode_field(order, tiff, &entry, group) {
            Ok(field) => field,
            Err(e) => {
                return Err(e);
            },
        };
        let ghost head = seq![field@];
        proof {
            lemma_views_push(fields@, field);
        }
        let target = pointer_target(&field);
        fields.push(field);
        match target {
            None => {
                proof {
                    lemma_prepend_twice(before, head, rest);
                }
            },
            Some((target, below)) => {
                match follow(order, tiff, target, depth, below, &mut fields) {
                    Ok(()) => {},
                    Err(e) => {
                        return Err(e);
                    },
                }
                proof {
                    let found = spec_follow(order, tiff@, target, level, below)->Ok_0;
                    lemma_prepend_twice(before, head + found, rest);
                    assert(before + (head + found) =~= (before + head) + found);
                }
            },
        }
        i += 1;
    }
    if dir.next_offset == 0 {
        assert(views(fields@) + Seq::<FieldView>::empty() =~= views(fields@));
        return Ok(fields);
    }
    proof {
        assert(views(fields@) + Seq::<FieldView>::empty() =~= views(fields@));
    }
    match follow(order, tiff, dir.next_offset, depth, group, &mut fields) {
        Ok(()) => Ok(fields),
        Err(e) => Err(e),
    }
}

} // verus!
