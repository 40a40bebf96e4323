//! A whole file: a header and, in a zlib stream, classes found by key.
//!
//! In the stream each class is announced by a byte that is not 0 and comes
//! with its key in front; a byte 0 ends the run.

use crate::anm_class::{
    class_leaves_no_more, class_read_back, class_round_trip, distinct, names, place_after_push,
    place_of, place_of_is_first, take_class, AnmClass, ClassView,
};
use crate::errors::{write_result, AnmReadingError, AnmWritingError};
use crate::wire::{
    append_assoc, i32_bits, i32_round_trip, le32, put_i32, put_string, put_u8, string_bytes,
    string_leaves_no_more, string_round_trip, take_i32, take_string, take_u8, u8_round_trip,
    ByteReader, Taken,
};
use crate::zlib::{compress, decompress, zlib_deflated, zlib_inflated};
use vstd::prelude::*;
use vstd::utf8::encode_utf8;

verus! {

/// A key and what the class under it holds.
pub type EntryView = (Seq<char>, ClassView);

/// The keys of the entries, place by place.
pub open spec fn keys(entries: Seq<EntryView>) -> Seq<Seq<char>> {
    entries.map_values(|e: EntryView| e.0)
}

/// The entries with `class` put in under `key`: in the place of the entry of
/// that key, if there is one, and else behind the last.
pub open spec fn with_class(entries: Seq<EntryView>, key: Seq<char>, class: ClassView) -> Seq<
    EntryView,
> {
    let place = place_of(keys(entries), key, 0);
    if place < entries.len() {
        entries.update(place, (key, class))
    } else {
        entries.push((key, class))
    }
}

/// The classes by their keys: under each key that occurs, the class of the
/// first entry that has it.
pub open spec fn by_key(entries: Seq<EntryView>) -> Map<Seq<char>, ClassView> {
    Map::new(
        |key: Seq<char>| place_of(keys(entries), key, 0) < entries.len(),
        |key: Seq<char>| entries[place_of(keys(entries), key, 0)].1,
    )
}

/// Putting a class in sets what stands under its key and leaves every other
/// key as it was: of two classes with one key the later stays.
pub proof fn putting_in_sets_the_key(entries: Seq<EntryView>, key: Seq<char>, class: ClassView)
    ensures
        by_key(with_class(entries, key, class)) == by_key(entries).insert(key, class),
{
    let all = keys(entries);
    let after = with_class(entries, key, class);
    let place = place_of(all, key, 0);
    place_of_is_first(all, key, 0);
    let want = by_key(entries).insert(key, class);
    assert forall|k: Seq<char>|
        #[trigger] by_key(after).dom().contains(k) == want.dom().contains(k) && (by_key(
            after,
        ).dom().contains(k) ==> by_key(after)[k] == want[k]) by {
        place_of_is_first(all, k, 0);
        if place < entries.len() {
            assert(keys(after) =~= all);
        } else {
            assert(keys(after) =~= all.push(key));
            place_after_push(all, key, k, 0);
        }
    }
    assert(by_key(after) =~= want);
}

/// What each of the entries holds.
pub open spec fn entry_views(entries: Seq<(String, AnmClass)>) -> Seq<EntryView> {
    entries.map_values(|e: (String, AnmClass)| (e.0@, e.1@))
}

/// A collection of classes, indexed by a key. No two of them have the same
/// key. They are kept in the order in which their keys came in.
#[derive(Debug)]
pub struct ClassesCollection {
    entries: Vec<(String, AnmClass)>,
}

impl View for ClassesCollection {
    type V = Seq<EntryView>;

    closed spec fn view(&self) -> Seq<EntryView> {
        entry_views(self.entries@)
    }
}

impl ClassesCollection {
    #[verifier::type_invariant]
    spec fn keys_are_distinct(&self) -> bool {
        distinct(keys(entry_views(self.entries@)))
    }

    /// A collection without classes.
    pub fn new() -> (r: Self)
        ensures
            r@ == Seq::<EntryView>::empty(),
    {
        let entries: Vec<(String, AnmClass)> = Vec::new();
        assert(entry_views(entries@) =~= Seq::<EntryView>::empty());
        ClassesCollection { entries }
    }

    /// How many classes there are.
    pub open spec fn spec_len(&self) -> usize {
        self@.len() as usize
    }

    /// How many classes there are.
    #[verifier::when_used_as_spec(spec_len)]
    pub fn len(&self) -> (n: usize)
        ensures
            n == self@.len(),
            n == self.spec_len(),
    {
        self.entries.len()
    }

    /// The place of the class under `key`; the number of classes if there is
    /// none.
    fn find(&self, key: &String) -> (place: usize)
        ensures
            place == place_of(keys(self@), key@, 0),
            place <= self@.len(),
    {
        let ghost all = keys(self@);
        let count = self.entries.len();
        let mut i: usize = 0;
        while i < count
            invariant
                i <= count,
                count == self.entries@.len(),
                all == keys(entry_views(self.entries@)),
                place_of(all, key@, i as int) == place_of(all, key@, 0),
            decreases count - i,
        {
            if self.entries[i].0 == *key {
                return i;
            }
            i = i + 1;
        }
        i
    }

    /// Puts a class in under a key. A class that was under the key before
    /// gives up its place and is returned.
    pub fn insert(&mut self, key: String, class: AnmClass) -> (r: Option<AnmClass>)
        ensures
            final(self)@ == with_class(old(self)@, key@, class@),
            match r {
                Some(c) => by_key(old(self)@).contains_key(key@) && c@ == by_key(old(self)@)[key@],
                None => !by_key(old(self)@).contains_key(key@),
            },
            r is None <==> forall|i: int|
                0 <= i < old(self)@.len() ==> (#[trigger] old(self)@[i]).0 != key@,
            r is None ==> final(self)@ == old(self)@.push((key@, class@)),
            r is Some ==> final(self)@.len() == old(self)@.len(),
    {
        proof {
            use_type_invariant(&*self);
            place_of_is_first(keys(self@), key@, 0);
            assert forall|i: int| 0 <= i < self@.len() implies keys(self@)[i]
                == (#[trigger] self@[i]).0 by {}
        }
        let place = self.find(&key);
        let ghost before = self.entries@;
        let ghost added = (key@, class@);
        let mut entries: Vec<(String, AnmClass)> = Vec::new();
        assert(keys(entry_views(entries@)) =~= Seq::<Seq<char>>::empty());
        std::mem::swap(&mut self.entries, &mut entries);
        let replaced = if place < entries.len() {
            entries.push((key, class));
            let replaced = entries.swap_remove(place);
            proof {
                let after = entries@;
                assert(entry_views(after) =~= entry_views(before).update(place as int, added));
                assert(keys(entry_views(after)) =~= keys(entry_views(before)));
            }
            Some(replaced.1)
        } else {
            entries.push((key, class));
            proof {
                let after = entries@;
                assert(entry_views(after) =~= entry_views(before).push(added));
                assert(keys(entry_views(after)) =~= keys(entry_views(before)).push(added.0));
            }
            None
        };
        std::mem::swap(&mut self.entries, &mut entries);
        replaced
    }

    /// The class under `key`, if there is one.
    pub fn get(&self, key: &str) -> (r: Option<&AnmClass>)
        ensures
            match r {
                Some(c) => by_key(self@).contains_key(key@) && c@ == by_key(self@)[key@],
                None => !by_key(self@).contains_key(key@),
            },
            r is None <==> forall|i: int| 0 <= i < self@.len() ==> (#[trigger] self@[i]).0 != key@,
    {
        let wanted = key.to_owned();
        let place = self.find(&wanted);
        proof {
            place_of_is_first(keys(self@), key@, 0);
            assert forall|i: int| 0 <= i < self@.len() implies keys(self@)[i]
                == (#[trigger] self@[i]).0 by {}
        }
        if place < self.entries.len() {
            Some(&self.entries[place].1)
        } else {
            None
        }
    }

    /// The keys and their classes, in the order in which they are written.
    /// No two of them have the same key.
    pub fn iter(&self) -> (r: &[(String, AnmClass)])
        ensures
            entry_views(r@) == self@,
            distinct(keys(self@)),
    {
        proof {
            use_type_invariant(self);
        }
        self.entries.as_slice()
    }
}

/// A collection of animation classes.
#[derive(Debug)]
pub struct AnmFile {
    /// Kept as it was read.
    pub header: i32,
    pub classes: ClassesCollection,
}

/// What a file holds.
pub struct FileView {
    pub header: i32,
    pub classes: Seq<EntryView>,
}

impl View for AnmFile {
    type V = FileView;

    open spec fn view(&self) -> FileView {
        FileView { header: self.header, classes: self.classes@ }
    }
}

/// Why the class under `key` cannot be written, if it cannot: the key is
/// too long for its field, or the class cannot be written.
pub open spec fn entry_error(e: EntryView) -> Option<AnmWritingError> {
    if encode_utf8(e.0).len() > u16::MAX {
        Some(AnmWritingError::TooLongClassKey { key_length: encode_utf8(e.0).len() as usize })
    } else {
        e.1.write_error()
    }
}

/// The bytes of an entry: a byte 1, the key, the class.
pub open spec fn entry_bytes(e: EntryView) -> Seq<u8> {
    seq![1u8] + string_bytes(e.0) + e.1.bytes()
}

/// What writing an entry appends: nothing if its key is too long, and else
/// a byte 1, the key and what the class appends.
pub open spec fn entry_written(e: EntryView) -> Seq<u8> {
    if encode_utf8(e.0).len() > u16::MAX {
        Seq::<u8>::empty()
    } else {
        seq![1u8] + string_bytes(e.0) + e.1.written()
    }
}

/// The bytes of the entries from place `from` on.
pub open spec fn entries_bytes(entries: Seq<EntryView>, from: int) -> Seq<u8>
    decreases entries.len() - from,
{
    if 0 <= from < entries.len() {
        entry_bytes(entries[from]) + entries_bytes(entries, from + 1)
    } else {
        Seq::<u8>::empty()
    }
}

/// Why the first of the entries from place `from` on that cannot be written
/// cannot be written, if there is one.
pub open spec fn first_entry_error(entries: Seq<EntryView>, from: int) -> Option<AnmWritingError>
    decreases entries.len() - from,
{
    if 0 <= from < entries.len() {
        match entry_error(entries[from]) {
            Some(e) => Some(e),
            None => first_entry_error(entries, from + 1),
        }
    } else {
        None
    }
}

/// What writing the entries from place `from` on appends: what each
/// appends, up to the first that cannot be written whole, and the byte 0
/// behind the last if all of them can.
pub open spec fn entries_written(entries: Seq<EntryView>, from: int) -> Seq<u8>
    decreases entries.len() - from,
{
    if 0 <= from < entries.len() {
        if entry_error(entries[from]) is None {
            entry_written(entries[from]) + entries_written(entries, from + 1)
        } else {
            entry_written(entries[from])
        }
    } else {
        seq![0u8]
    }
}

/// The bytes of the classes as they stand in the zlib stream: the entries,
/// and a byte 0.
pub open spec fn body_bytes(entries: Seq<EntryView>) -> Seq<u8> {
    entries_bytes(entries, 0) + seq![0u8]
}

/// Entries off the front of `s`, up to the byte 0 that ends them, put in
/// with the entries `read`. Of two with the same key the later one stays.
pub open spec fn take_entries(s: Seq<u8>, read: Seq<EntryView>) -> Taken<Seq<EntryView>>
    decreases s.len(),
{
    match take_u8(s) {
        Err(e) => Err(e),
        Ok((more, s1)) => if more == 0 {
            Ok((read, s1))
        } else {
            match take_string(s1) {
                Err(e) => Err(e),
                Ok((key, s2)) => match take_class(s2) {
                    Err(e) => Err(e),
                    Ok((class, s3)) => {
                        proof {
                            string_leaves_no_more(s1);
                            class_leaves_no_more(s2);
                        }
                        take_entries(s3, with_class(read, key, class))
                    },
                },
            }
        },
    }
}

/// What a file is read as: the header, and the entries that stand in what
/// the zlib stream behind it holds. What follows the byte 0 that ends the
/// entries is not looked at.
pub open spec fn take_file(s: Seq<u8>) -> Result<FileView, AnmReadingError> {
    match take_i32(s) {
        Err(e) => Err(e),
        Ok((header, stream)) => match take_entries(
            zlib_inflated(stream),
            Seq::<EntryView>::empty(),
        ) {
            Err(e) => Err(e),
            Ok((classes, rest)) => Ok(FileView { header, classes }),
        },
    }
}

impl FileView {
    /// What goes into the zlib stream when the file is written.
    pub open spec fn body_written(self) -> Seq<u8> {
        entries_written(self.classes, 0)
    }

    /// Why the file cannot be written, if it cannot: the first entry that
    /// cannot be written, or else the compressor.
    pub open spec fn write_error(self) -> Option<AnmWritingError> {
        match first_entry_error(self.classes, 0) {
            Some(e) => Some(e),
            None => if zlib_deflated(self.body_written()) is None {
                Some(AnmWritingError::IOError())
            } else {
                None
            },
        }
    }

    /// What writing the file appends: the header and the zlib stream of what
    /// went into it, be that all of the classes or not.
    pub open spec fn written(self) -> Seq<u8> {
        le32(i32_bits(self.header)) + match zlib_deflated(self.body_written()) {
            Some(z) => z,
            None => Seq::<u8>::empty(),
        }
    }
}

impl AnmFile {
    /// Reads the entries of a file from what its zlib stream holds.
    pub fn read_classes(reader: &mut ByteReader) -> (r: Result<ClassesCollection, AnmReadingError>)
        ensures
            match take_entries(old(reader).remaining(), Seq::<EntryView>::empty()) {
                Ok((v, rest)) => r matches Ok(c) && c@ == v && final(reader).remaining() == rest,
                Err(e) => r == Err::<ClassesCollection, AnmReadingError>(e),
            },
            final(reader).source() == old(reader).source(),
    {
        let mut classes = ClassesCollection::new();
        let ghost whole = take_entries(reader.remaining(), Seq::<EntryView>::empty());
        loop
            invariant
                reader.source() == old(reader).source(),
                whole == take_entries(old(reader).remaining(), Seq::<EntryView>::empty()),
                take_entries(reader.remaining(), classes@) == whole,
            decreases reader.remaining().len(),
        {
            let more = reader.read_u8()?;
            if more == 0 {
                return Ok(classes);
            }
            proof {
                string_leaves_no_more(reader.remaining());
            }
            let key = reader.read_string()?;
            proof {
                class_leaves_no_more(reader.remaining());
            }
            let class = AnmClass::read(reader)?;
            classes.insert(key, class);
        }
    }

    /// Reads a file from its bytes: the header, then the classes from the
    /// zlib stream behind it.
    pub fn read(bytes: &[u8]) -> (r: Result<AnmFile, AnmReadingError>)
        ensures
            match take_file(bytes@) {
                Ok(v) => r matches Ok(f) && f@ == v,
                Err(e) => r == Err::<AnmFile, AnmReadingError>(e),
            },
    {
        let mut reader = ByteReader::new(bytes);
        let header = reader.read_i32()?;
        let stream = vstd::slice::slice_subrange(bytes, 4, bytes.len());
        assert(stream@ =~= reader.remaining()) by {
            assert(bytes@.skip(4) =~= bytes@.subrange(4, bytes@.len() as int));
        }
        let body = decompress(stream);
        let mut body_reader = ByteReader::new(body.as_slice());
        let classes = Self::read_classes(&mut body_reader)?;
        Ok(AnmFile { header, classes })
    }

    /// Writes the entries of a file as they go into its zlib stream, up to
    /// the first that cannot be written whole.
    pub fn write_classes(&self, out: &mut Vec<u8>) -> (r: Result<(), AnmWritingError>)
        ensures
            r == write_result(first_entry_error(self@.classes, 0)),
            final(out)@ == old(out)@ + entries_written(self@.classes, 0),
    {
        let ghost views = self@.classes;
        let ghost target = out@ + entries_written(views, 0);
        let entries = self.classes.iter();
        let count = entries.len();
        let mut i: usize = 0;
        while i < count
            invariant
                i <= count,
                count == entries@.len(),
                views == entry_views(entries@),
                views == self@.classes,
                first_entry_error(views, i as int) == first_entry_error(views, 0),
                target == old(out)@ + entries_written(views, 0),
                out@ + entries_written(views, i as int) == target,
            decreases count - i,
        {
            let ghost before = out@;
            let key = &entries[i].0;
            let class = &entries[i].1;
            assert(views[i as int] == (key@, class@));
            let key_length = key.as_str().as_bytes().len();
            if key_length > 0xffff {
                assert(before =~= before + entries_written(views, i as int));
                return Err(AnmWritingError::TooLongClassKey { key_length });
            }
            put_u8(out, 1);
            let keyed = put_string(out, key.as_str());
            assert(keyed is Ok);
            let r = class.write(out);
            assert(out@ == before + entry_written(views[i as int])) by {
                append_assoc(before, seq![1u8], string_bytes(key@));
                append_assoc(before, seq![1u8] + string_bytes(key@), class@.written());
            }
            match r {
                Ok(()) => {},
                Err(e) => {
                    assert(entry_error(views[i as int]) == Some(e));
                    assert(entries_written(views, i as int) == entry_written(views[i as int]));
                    return Err(e);
                },
            }
            proof {
                append_assoc(
                    before,
                    entry_written(views[i as int]),
                    entries_written(views, i + 1),
                );
            }
            i = i + 1;
        }
        put_u8(out, 0);
        Ok(())
    }

    /// Writes the file: the header, then the zlib stream of the classes. If
    /// a class cannot be written, the stream holds what was written up to
    /// there.
    pub fn write(&self, out: &mut Vec<u8>) -> (r: Result<(), AnmWritingError>)
        ensures
            r == write_result(self@.write_error()),
            final(out)@ == old(out)@ + self@.written(),
    {
        put_i32(out, self.header);
        let mut body: Vec<u8> = Vec::new();
        let written = self.write_classes(&mut body);
        assert(body@ =~= self@.body_written());
        match compress(body.as_slice()) {
            Some(stream) => {
                out.extend_from_slice(stream.as_slice());
                proof {
                    append_assoc(old(out)@, le32(i32_bits(self.header)), stream@);
                }
                written
            },
            None => {
                assert(out@ =~= old(out)@ + self@.written());
                match written {
                    Ok(()) => Err(AnmWritingError::IOError()),
                    Err(e) => Err(e),
                }
            },
        }
    }
}

/// Whether the entries `read` are what reading gives for the entries
/// `written`, place by place: the same keys, and classes that are what
/// reading gives for the classes.
pub open spec fn entries_read_back(written: Seq<EntryView>, read: Seq<EntryView>) -> bool {
    &&& read.len() == written.len()
    &&& forall|i: int|
        0 <= i < written.len() ==> (#[trigger] read[i]).0 == written[i].0 && class_read_back(
            written[i].1,
            read[i].1,
        )
}

/// Whether the file `read` is what reading gives for the file `written`.
pub open spec fn file_read_back(written: FileView, read: FileView) -> bool {
    read.header == written.header && entries_read_back(written.classes, read.classes)
}

/// What holds of the classes of every file: no two have the same key, and
/// in none of them two animations have the same name.
pub open spec fn well_formed(entries: Seq<EntryView>) -> bool {
    &&& distinct(keys(entries))
    &&& forall|i: int| 0 <= i < entries.len() ==> distinct(names(#[trigger] entries[i].1.animations))
}

/// Where every entry from place `from` on can be written, writing them
/// appends the bytes of them all and the byte 0.
proof fn entries_are_written_whole(entries: Seq<EntryView>, from: int)
    requires
        0 <= from <= entries.len(),
        well_formed(entries),
        first_entry_error(entries, from) is None,
    ensures
        entries_written(entries, from) == entries_bytes(entries, from) + seq![0u8],
    decreases entries.len() - from,
{
    if from < entries.len() {
        class_round_trip(entries[from].1, Seq::<u8>::empty());
        entries_are_written_whole(entries, from + 1);
        append_assoc(entry_bytes(entries[from]), entries_bytes(entries, from + 1), seq![0u8]);
    } else {
        assert(entries_bytes(entries, from) + seq![0u8] =~= seq![0u8]);
    }
}

/// A class whose key is new to a collection is put behind the last.
proof fn new_key_goes_last(
    entries: Seq<EntryView>,
    from: int,
    read: Seq<EntryView>,
    class: ClassView,
)
    requires
        0 <= from < entries.len(),
        distinct(keys(entries)),
        entries_read_back(entries.take(from), read),
    ensures
        with_class(read, entries[from].0, class) == read.push((entries[from].0, class)),
{
    let key = entries[from].0;
    place_of_is_first(keys(read), key, 0);
    let place = place_of(keys(read), key, 0);
    if place < read.len() {
        assert(read[place].0 == entries.take(from)[place].0);
        assert(keys(entries)[place] == entries[place].0);
        assert(keys(entries)[from] == entries[from].0);
    }
}

/// The entries from place `from` on that were written are read back, when
/// the entries before them were.
proof fn entries_round_trip(
    entries: Seq<EntryView>,
    from: int,
    read: Seq<EntryView>,
    rest: Seq<u8>,
)
    requires
        0 <= from <= entries.len(),
        well_formed(entries),
        first_entry_error(entries, from) is None,
        entries_read_back(entries.take(from), read),
    ensures
        take_entries(entries_bytes(entries, from) + (seq![0u8] + rest), read) matches Ok(
            (all, after),
        ) && after == rest && entries_read_back(entries, all),
    decreases entries.len() - from,
{
    if from == entries.len() {
        assert(entries_bytes(entries, from) + (seq![0u8] + rest) =~= seq![0u8] + rest);
        u8_round_trip(0, rest);
        assert(entries.take(from) =~= entries);
    } else {
        let key = entries[from].0;
        let class = entries[from].1;
        let tail = entries_bytes(entries, from + 1) + (seq![0u8] + rest);
        let s2 = class.bytes() + tail;
        let s1 = string_bytes(key) + s2;
        assert(entries_bytes(entries, from) + (seq![0u8] + rest) == seq![1u8] + s1) by {
            append_assoc(
                entry_bytes(entries[from]),
                entries_bytes(entries, from + 1),
                seq![0u8] + rest,
            );
            append_assoc(seq![1u8] + string_bytes(key), class.bytes(), tail);
            append_assoc(seq![1u8], string_bytes(key), s2);
        }
        u8_round_trip(1, s1);
        string_round_trip(key, s2);
        class_round_trip(class, tail);
        let r = take_class(s2)->Ok_0.0;
        new_key_goes_last(entries, from, read, r);
        let next = read.push((key, r));
        assert(entries_read_back(entries.take(from + 1), next)) by {
            assert forall|j: int| 0 <= j < from + 1 implies (#[trigger] next[j]).0
                == entries.take(from + 1)[j].0 && class_read_back(
                entries.take(from + 1)[j].1,
                next[j].1,
            ) by {
                if j < from {
                    assert(entries.take(from)[j] == entries[j]);
                    assert(next[j] == read[j]);
                }
            }
        }
        entries_round_trip(entries, from + 1, next, rest);
    }
}

/// Classes that can be written are written whole, with the byte 0 behind
/// them, and are read back: nothing in them but the sign of a zero and the
/// step of an opacity can differ, and the bytes behind the byte 0 are left.
pub proof fn classes_round_trip(entries: Seq<EntryView>, rest: Seq<u8>)
    requires
        well_formed(entries),
        first_entry_error(entries, 0) is None,
    ensures
        entries_written(entries, 0) == body_bytes(entries),
        take_entries(body_bytes(entries) + rest, Seq::<EntryView>::empty()) matches Ok(
            (read, after),
        ) && after == rest && entries_read_back(entries, read),
{
    entries_are_written_whole(entries, 0);
    append_assoc(entries_bytes(entries, 0), seq![0u8], rest);
    assert(entries.take(0) =~= Seq::<EntryView>::empty());
    entries_round_trip(entries, 0, Seq::<EntryView>::empty(), rest);
}

/// A file that can be written is read back from what was written, if the
/// decompressor gives back what the compressor was given: nothing in it but
/// the sign of a zero and the step of an opacity can differ.
pub proof fn file_round_trip(f: FileView)
    requires
        well_formed(f.classes),
        f.write_error() is None,
    ensures
        zlib_inflated(zlib_deflated(f.body_written())->0) == f.body_written() ==> (take_file(
            f.written(),
        ) matches Ok(read) && file_read_back(f, read)),
{
    let stream = zlib_deflated(f.body_written())->0;
    i32_round_trip(f.header, stream);
    classes_round_trip(f.classes, Seq::<u8>::empty());
    assert(body_bytes(f.classes) + Seq::<u8>::empty() =~= body_bytes(f.classes));
}

/// Classes that end at once are no classes: a byte 0 at the front gives an
/// empty collection, and the bytes behind it are left. A byte that is not 0
/// with no key and class behind it that can be read gives the error of
/// reading them.
pub proof fn classes_end_at_zero(s: Seq<u8>)
    requires
        s.len() >= 1,
    ensures
        s[0] == 0 ==> take_entries(s, Seq::<EntryView>::empty()) == Ok::<
            (Seq<EntryView>, Seq<u8>),
            AnmReadingError,
        >((Seq::<EntryView>::empty(), s.skip(1))),
        take_string(s.skip(1)) matches Err(e) ==> (s[0] != 0 ==> take_entries(
            s,
            Seq::<EntryView>::empty(),
        ) == Err::<(Seq<EntryView>, Seq<u8>), AnmReadingError>(e)),
        take_string(s.skip(1)) matches Ok((key, s2)) ==> (take_class(s2) matches Err(e) ==> (s[0]
            != 0 ==> take_entries(s, Seq::<EntryView>::empty()) == Err::<
            (Seq<EntryView>, Seq<u8>),
            AnmReadingError,
        >(e))),
{
}

} // verus!
