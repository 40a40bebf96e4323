//! One class: a set of animations that share a sprite file, found by name.

use crate::anm_animation::{
    animation_leaves_no_more, animation_read_back, animation_round_trip, take_animation,
    AnimationView, AnmAnimation,
};
use crate::errors::{write_result, AnmReadingError, AnmWritingError};
use crate::wire::{
    append_assoc, le32, no_longer, put_string, put_u32, string_bytes, string_leaves_no_more,
    string_round_trip, take_string, take_u32, u32_round_trip, ByteReader, Taken,
};
use vstd::prelude::*;
use vstd::utf8::encode_utf8;

verus! {

/// The first place from `from` on at which `keys` holds `key`; the length of
/// `keys` if there is none.
pub open spec fn place_of(keys: Seq<Seq<char>>, key: Seq<char>, from: int) -> int
    decreases keys.len() - from,
{
    if 0 <= from < keys.len() {
        if keys[from] == key {
            from
        } else {
            place_of(keys, key, from + 1)
        }
    } else {
        keys.len() as int
    }
}

/// Whether no key stands at two places.
pub open spec fn distinct(keys: Seq<Seq<char>>) -> bool {
    forall|i: int, j: int| 0 <= i < j < keys.len() ==> keys[i] != keys[j]
}

/// The names of the animations, place by place.
pub open spec fn names(animations: Seq<AnimationView>) -> Seq<Seq<char>> {
    animations.map_values(|a: AnimationView| a.name)
}

/// The animations with `a` put in: in the place of the animation of its
/// name, if there is one, and else behind the last.
pub open spec fn with_animation(animations: Seq<AnimationView>, a: AnimationView) -> Seq<
    AnimationView,
> {
    let place = place_of(names(animations), a.name, 0);
    if place < animations.len() {
        animations.update(place, a)
    } else {
        animations.push(a)
    }
}

/// The animations by their names: under each name that occurs, the first
/// animation that has it.
pub open spec fn by_name(animations: Seq<AnimationView>) -> Map<Seq<char>, AnimationView> {
    Map::new(
        |name: Seq<char>| place_of(names(animations), name, 0) < animations.len(),
        |name: Seq<char>| animations[place_of(names(animations), name, 0)],
    )
}

/// What each of the animations holds.
pub open spec fn animation_views(animations: Seq<AnmAnimation>) -> Seq<AnimationView> {
    animations.map_values(|a: AnmAnimation| a@)
}

/// A collection of animations, indexed by their name. No two of them have
/// the same name. They are kept in the order in which their names came in.
#[derive(Debug)]
pub struct AnimationCollection {
    animations: Vec<AnmAnimation>,
}

impl View for AnimationCollection {
    type V = Seq<AnimationView>;

    closed spec fn view(&self) -> Seq<AnimationView> {
        animation_views(self.animations@)
    }
}

/// A place from `from` on holds the key that `place_of` gives, and no place
/// before it does.
pub proof fn place_of_is_first(keys: Seq<Seq<char>>, key: Seq<char>, from: int)
    requires
        0 <= from <= keys.len(),
    ensures
        from <= place_of(keys, key, from) <= keys.len(),
        place_of(keys, key, from) < keys.len() ==> keys[place_of(keys, key, from)] == key,
        forall|i: int| from <= i < place_of(keys, key, from) ==> keys[i] != key,
    decreases keys.len() - from,
{
    if from < keys.len() && keys[from] != key {
        place_of_is_first(keys, key, from + 1);
    }
}

/// Where `key` stands among `keys` after `added` was put behind them: where
/// it stood, or behind them if it is `added` and did not stand there.
pub proof fn place_after_push(keys: Seq<Seq<char>>, added: Seq<char>, key: Seq<char>, from: int)
    requires
        0 <= from <= keys.len(),
    ensures
        place_of(keys.push(added), key, from) == if place_of(keys, key, from) < keys.len() {
            place_of(keys, key, from)
        } else if key == added {
            keys.len() as int
        } else {
            (keys.len() + 1) as int
        },
    decreases keys.len() - from,
{
    if from < keys.len() {
        assert(keys.push(added)[from] == keys[from]);
        if keys[from] != key {
            place_after_push(keys, added, key, from + 1);
        }
    } else {
        assert(keys.push(added)[from] == added);
        assert(place_of(keys.push(added), key, from + 1) == keys.len() + 1);
    }
}

/// Putting an animation in sets what stands under its name and leaves every
/// other name as it was: of two animations with one name the later stays.
pub proof fn putting_in_sets_the_name(animations: Seq<AnimationView>, a: AnimationView)
    ensures
        by_name(with_animation(animations, a)) == by_name(animations).insert(a.name, a),
{
    let keys = names(animations);
    let after = with_animation(animations, a);
    let place = place_of(keys, a.name, 0);
    place_of_is_first(keys, a.name, 0);
    let want = by_name(animations).insert(a.name, a);
    assert forall|name: Seq<char>|
        #[trigger] by_name(after).dom().contains(name) == want.dom().contains(name) && (by_name(
            after,
        ).dom().contains(name) ==> by_name(after)[name] == want[name]) by {
        place_of_is_first(keys, name, 0);
        if place < animations.len() {
            assert(names(after) =~= keys);
        } else {
            assert(names(after) =~= keys.push(a.name));
            place_after_push(keys, a.name, name, 0);
        }
    }
    assert(by_name(after) =~= want);
}

impl AnimationCollection {
    #[verifier::type_invariant]
    spec fn names_are_distinct(&self) -> bool {
        distinct(names(animation_views(self.animations@)))
    }

    /// A collection without animations.
    pub fn new() -> (r: Self)
        ensures
            r@ == Seq::<AnimationView>::empty(),
    {
        let animations: Vec<AnmAnimation> = Vec::new();
        assert(animation_views(animations@) =~= Seq::<AnimationView>::empty());
        AnimationCollection { animations }
    }

    /// A collection without animations that has room for `capacity` of them.
    pub fn with_capacity(capacity: usize) -> (r: Self)
        ensures
            r@ == Seq::<AnimationView>::empty(),
    {
        let animations: Vec<AnmAnimation> = Vec::with_capacity(capacity);
        assert(animation_views(animations@) =~= Seq::<AnimationView>::empty());
        AnimationCollection { animations }
    }

    /// How many animations there are.
    pub open spec fn spec_len(&self) -> usize {
        self@.len() as usize
    }

    /// How many animations there are.
    #[verifier::when_used_as_spec(spec_len)]
    pub fn len(&self) -> (n: usize)
        ensures
            n == self@.len(),
            n == self.spec_len(),
    {
        self.animations.len()
    }

    /// The place of the animation called `name`; the number of animations if
    /// there is none.
    fn find(&self, name: &String) -> (place: usize)
        ensures
            place == place_of(names(self@), name@, 0),
            place <= self@.len(),
    {
        let ghost keys = names(self@);
        let count = self.animations.len();
        let mut i: usize = 0;
        while i < count
            invariant
                i <= count,
                count == self.animations@.len(),
                keys == names(animation_views(self.animations@)),
                place_of(keys, name@, i as int) == place_of(keys, name@, 0),
            decreases count - i,
        {
            if self.animations[i].name == *name {
                return i;
            }
            i = i + 1;
        }
        i
    }

    /// Puts an animation in under its name. An animation that had the name
    /// before gives up its place and is returned.
    pub fn insert(&mut self, animation: AnmAnimation) -> (r: Option<AnmAnimation>)
        ensures
            final(self)@ == with_animation(old(self)@, animation@),
            match r {
                Some(a) => by_name(old(self)@).contains_key(animation@.name) && a@ == by_name(
                    old(self)@,
                )[animation@.name],
                None => !by_name(old(self)@).contains_key(animation@.name),
            },
            r is None <==> forall|i: int|
                0 <= i < old(self)@.len() ==> (#[trigger] old(self)@[i]).name != animation@.name,
            r is None ==> final(self)@ == old(self)@.push(animation@),
            r is Some ==> final(self)@.len() == old(self)@.len(),
    {
        proof {
            use_type_invariant(&*self);
            place_of_is_first(names(self@), animation@.name, 0);
            assert forall|i: int| 0 <= i < self@.len() implies names(self@)[i]
                == (#[trigger] self@[i]).name by {}
        }
        let place = self.find(&animation.name);
        let ghost before = self.animations@;
        let ghost added = animation@;
        let mut animations: Vec<AnmAnimation> = Vec::new();
        assert(names(animation_views(animations@)) =~= Seq::<Seq<char>>::empty());
        std::mem::swap(&mut self.animations, &mut animations);
        let replaced = if place < animations.len() {
            animations.push(animation);
            let replaced = animations.swap_remove(place);
            proof {
                let after = animations@;
                assert(animation_views(after) =~= animation_views(before).update(
                    place as int,
                    added,
                ));
                assert(names(animation_views(after)) =~= names(animation_views(before)));
            }
            Some(replaced)
        } else {
            animations.push(animation);
            proof {
                let after = animations@;
                assert(animation_views(after) =~= animation_views(before).push(added));
                assert(names(animation_views(after)) =~= names(animation_views(before)).push(
                    added.name,
                ));
            }
            None
        };
        std::mem::swap(&mut self.animations, &mut animations);
        replaced
    }

    /// The animation called `name`, if there is one.
    pub fn get(&self, name: &str) -> (r: Option<&AnmAnimation>)
        ensures
            match r {
                Some(a) => by_name(self@).contains_key(name@) && a@ == by_name(self@)[name@]
                    && a@.name == name@,
                None => !by_name(self@).contains_key(name@),
            },
            r is None <==> forall|i: int|
                0 <= i < self@.len() ==> (#[trigger] self@[i]).name != name@,
    {
        let wanted = name.to_owned();
        let place = self.find(&wanted);
        proof {
            place_of_is_first(names(self@), name@, 0);
            assert forall|i: int| 0 <= i < self@.len() implies names(self@)[i]
                == (#[trigger] self@[i]).name by {}
        }
        if place < self.animations.len() {
            Some(&self.animations[place])
        } else {
            None
        }
    }

    /// The animations, in the order in which they are written. No two of
    /// them have the same name.
    pub fn iter(&self) -> (r: &[AnmAnimation])
        ensures
            animation_views(r@) == self@,
            distinct(names(self@)),
    {
        proof {
            use_type_invariant(self);
        }
        self.animations.as_slice()
    }
}

/// A collection of animations, indexed by their name, with the index and the
/// file name of the sprites that they use.
#[derive(Debug)]
pub struct AnmClass {
    pub index: String,
    pub file_name: String,
    pub animations: AnimationCollection,
}

/// What a class holds.
pub struct ClassView {
    pub index: Seq<char>,
    pub file_name: Seq<char>,
    pub animations: Seq<AnimationView>,
}

impl View for AnmClass {
    type V = ClassView;

    open spec fn view(&self) -> ClassView {
        ClassView { index: self.index@, file_name: self.file_name@, animations: self.animations@ }
    }
}

/// The bytes of the animations from place `from` on.
pub open spec fn animations_bytes(animations: Seq<AnimationView>, from: int) -> Seq<u8>
    decreases animations.len() - from,
{
    if 0 <= from < animations.len() {
        animations[from].bytes() + animations_bytes(animations, from + 1)
    } else {
        Seq::<u8>::empty()
    }
}

/// Why the first of the animations from place `from` on that cannot be
/// written cannot be written, if there is one.
pub open spec fn first_animation_error(animations: Seq<AnimationView>, from: int) -> Option<
    AnmWritingError,
>
    decreases animations.len() - from,
{
    if 0 <= from < animations.len() {
        match animations[from].write_error() {
            Some(e) => Some(e),
            None => first_animation_error(animations, from + 1),
        }
    } else {
        None
    }
}

/// What writing the animations from place `from` on appends: what each
/// appends, up to the first that cannot be written whole.
pub open spec fn animations_written(animations: Seq<AnimationView>, from: int) -> Seq<u8>
    decreases animations.len() - from,
{
    if 0 <= from < animations.len() {
        if animations[from].write_error() is None {
            animations[from].written() + animations_written(animations, from + 1)
        } else {
            animations[from].written()
        }
    } else {
        Seq::<u8>::empty()
    }
}

/// `count` more animations off the front of `s`, put in with the animations
/// `read`. Of two with the same name the later one stays.
pub open spec fn take_animations(s: Seq<u8>, count: nat, read: Seq<AnimationView>) -> Taken<
    Seq<AnimationView>,
>
    decreases count,
{
    if count == 0 {
        Ok((read, s))
    } else {
        match take_animation(s) {
            Err(e) => Err(e),
            Ok((a, rest)) => take_animations(rest, (count - 1) as nat, with_animation(read, a)),
        }
    }
}

/// A class off the front of `s`: index, file name, number of animations,
/// and the animations.
pub open spec fn take_class(s: Seq<u8>) -> Taken<ClassView> {
    match take_string(s) {
        Err(e) => Err(e),
        Ok((index, s1)) => match take_string(s1) {
            Err(e) => Err(e),
            Ok((file_name, s2)) => match take_u32(s2) {
                Err(e) => Err(e),
                Ok((animation_count, s3)) => match take_animations(
                    s3,
                    animation_count as nat,
                    Seq::<AnimationView>::empty(),
                ) {
                    Err(e) => Err(e),
                    Ok((animations, s4)) => Ok((ClassView { index, file_name, animations }, s4)),
                },
            },
        },
    }
}

impl ClassView {
    /// Why the class cannot be written before a byte of it has been written,
    /// if so: the first of index, file name and number of animations that
    /// does not fit its field.
    pub open spec fn head_error(self) -> Option<AnmWritingError> {
        if encode_utf8(self.index).len() > u16::MAX {
            Some(
                AnmWritingError::TooLongClassIndex {
                    index_length: encode_utf8(self.index).len() as usize,
                },
            )
        } else if encode_utf8(self.file_name).len() > u16::MAX {
            Some(
                AnmWritingError::TooLongClassFilename {
                    filename_length: encode_utf8(self.file_name).len() as usize,
                },
            )
        } else if self.animations.len() > u32::MAX {
            Some(
                AnmWritingError::TooManyAnimationsError {
                    animation_count: self.animations.len() as usize,
                },
            )
        } else {
            None
        }
    }

    /// Why the class cannot be written, if it cannot: what is wrong with its
    /// head, or else with the first animation that cannot be written.
    pub open spec fn write_error(self) -> Option<AnmWritingError> {
        match self.head_error() {
            Some(e) => Some(e),
            None => first_animation_error(self.animations, 0),
        }
    }

    /// The bytes of everything in front of the animations.
    pub open spec fn head_bytes(self) -> Seq<u8> {
        string_bytes(self.index) + string_bytes(self.file_name) + le32(
            self.animations.len() as u32,
        )
    }

    /// The bytes of the class.
    pub open spec fn bytes(self) -> Seq<u8> {
        self.head_bytes() + animations_bytes(self.animations, 0)
    }

    /// What writing the class appends: nothing if something is wrong with
    /// its head, and else its head and what its animations append, up to the
    /// first that cannot be written whole.
    pub open spec fn written(self) -> Seq<u8> {
        if self.head_error() is Some {
            Seq::<u8>::empty()
        } else {
            self.head_bytes() + animations_written(self.animations, 0)
        }
    }
}

impl AnmClass {
    /// Reads `count` animations into a collection.
    fn read_animations(reader: &mut ByteReader, count: usize) -> (r: Result<
        AnimationCollection,
        AnmReadingError,
    >)
        ensures
            match take_animations(
                old(reader).remaining(),
                count as nat,
                Seq::<AnimationView>::empty(),
            ) {
                Ok((v, rest)) => r matches Ok(c) && c@ == v && final(reader).remaining() == rest,
                Err(e) => r == Err::<AnimationCollection, AnmReadingError>(e),
            },
            final(reader).source() == old(reader).source(),
    {
        let mut animations = AnimationCollection::new();
        let ghost whole = take_animations(
            reader.remaining(),
            count as nat,
            Seq::<AnimationView>::empty(),
        );
        let mut i: usize = 0;
        while i < count
            invariant
                i <= count,
                reader.source() == old(reader).source(),
                whole == take_animations(
                    old(reader).remaining(),
                    count as nat,
                    Seq::<AnimationView>::empty(),
                ),
                take_animations(reader.remaining(), (count - i) as nat, animations@) == whole,
            decreases count - i,
        {
            let animation = AnmAnimation::read(reader)?;
            animations.insert(animation);
            i = i + 1;
        }
        Ok(animations)
    }

    /// Reads a class.
    pub fn read(reader: &mut ByteReader) -> (r: Result<AnmClass, AnmReadingError>)
        ensures
            match take_class(old(reader).remaining()) {
                Ok((v, rest)) => r matches Ok(c) && c@ == v && final(reader).remaining() == rest,
                Err(e) => r == Err::<AnmClass, AnmReadingError>(e),
            },
            final(reader).source() == old(reader).source(),
    {
        let index = reader.read_string()?;
        let file_name = reader.read_string()?;
        let animation_count = reader.read_u32()? as usize;
        let animations = Self::read_animations(reader, animation_count)?;
        Ok(AnmClass { index, file_name, animations })
    }

    /// Writes the animations, up to the first that cannot be written whole.
    fn write_animations(&self, out: &mut Vec<u8>) -> (r: Result<(), AnmWritingError>)
        ensures
            r == write_result(first_animation_error(self@.animations, 0)),
            final(out)@ == old(out)@ + animations_written(self@.animations, 0),
    {
        let ghost views = self@.animations;
        let ghost target = out@ + animations_written(views, 0);
        let animations = self.animations.iter();
        let count = animations.len();
        let mut i: usize = 0;
        while i < count
            invariant
                i <= count,
                count == animations@.len(),
                views == animation_views(animations@),
                views == self@.animations,
                first_animation_error(views, i as int) == first_animation_error(views, 0),
                target == old(out)@ + animations_written(views, 0),
                out@ + animations_written(views, i as int) == target,
            decreases count - i,
        {
            let ghost before = out@;
            let animation = &animations[i];
            assert(views[i as int] == animation@);
            match animation.write(out) {
                Ok(()) => {},
                Err(e) => {
                    assert(views[i as int].write_error() == Some(e));
                    assert(animations_written(views, i as int) == views[i as int].written());
                    return Err(e);
                },
            }
            proof {
                append_assoc(
                    before,
                    views[i as int].written(),
                    animations_written(views, i + 1),
                );
            }
            i = i + 1;
        }
        assert(out@ =~= out@ + animations_written(views, i as int));
        Ok(())
    }

    /// Writes the class. Nothing is written if its index, its file name or
    /// the number of its animations does not fit its field; if an animation
    /// cannot be written, what was written up to there stays.
    pub fn write(&self, out: &mut Vec<u8>) -> (r: Result<(), AnmWritingError>)
        ensures
            r == write_result(self@.write_error()),
            final(out)@ == old(out)@ + self@.written(),
    {
        let index_length = self.index.as_str().as_bytes().len();
        if index_length > 0xffff {
            assert(out@ =~= old(out)@ + self@.written());
            return Err(AnmWritingError::TooLongClassIndex { index_length });
        }
        let filename_length = self.file_name.as_str().as_bytes().len();
        if filename_length > 0xffff {
            assert(out@ =~= old(out)@ + self@.written());
            return Err(AnmWritingError::TooLongClassFilename { filename_length });
        }
        let animation_count = self.animations.len();
        if animation_count > 0xffff_ffff {
            assert(out@ =~= old(out)@ + self@.written());
            return Err(AnmWritingError::TooManyAnimationsError { animation_count });
        }
        let indexed = put_string(out, self.index.as_str());
        let named = put_string(out, self.file_name.as_str());
        assert(indexed is Ok && named is Ok);
        put_u32(out, animation_count as u32);
        proof {
            let v = self@;
            append_assoc(old(out)@, string_bytes(v.index), string_bytes(v.file_name));
            append_assoc(
                old(out)@,
                string_bytes(v.index) + string_bytes(v.file_name),
                le32(v.animations.len() as u32),
            );
        }
        let r = self.write_animations(out);
        proof {
            append_assoc(old(out)@, self@.head_bytes(), animations_written(self@.animations, 0));
        }
        r
    }
}

/// Whether the animations `read` are what reading gives for the animations
/// `written`, place by place.
pub open spec fn animations_read_back(
    written: Seq<AnimationView>,
    read: Seq<AnimationView>,
) -> bool {
    &&& read.len() == written.len()
    &&& forall|i: int|
        0 <= i < written.len() ==> animation_read_back(written[i], #[trigger] read[i])
}

/// Whether the class `read` is what reading gives for the class `written`:
/// the same index and file name, and animations that are what reading gives
/// for its animations, in the same order.
pub open spec fn class_read_back(written: ClassView, read: ClassView) -> bool {
    &&& read.index == written.index
    &&& read.file_name == written.file_name
    &&& animations_read_back(written.animations, read.animations)
}

/// Where every animation from place `from` on can be written, writing them
/// appends the bytes of them all.
proof fn animations_are_written_whole(animations: Seq<AnimationView>, from: int)
    requires
        0 <= from <= animations.len(),
        first_animation_error(animations, from) is None,
    ensures
        animations_written(animations, from) == animations_bytes(animations, from),
    decreases animations.len() - from,
{
    if from < animations.len() {
        animation_round_trip(animations[from], Seq::<u8>::empty());
        animations_are_written_whole(animations, from + 1);
    }
}

/// An animation whose name is new to a collection is put behind the last.
proof fn new_name_goes_last(
    animations: Seq<AnimationView>,
    from: int,
    read: Seq<AnimationView>,
    a: AnimationView,
)
    requires
        0 <= from < animations.len(),
        distinct(names(animations)),
        animations_read_back(animations.take(from), read),
        a.name == animations[from].name,
    ensures
        with_animation(read, a) == read.push(a),
{
    let keys = names(read);
    place_of_is_first(keys, a.name, 0);
    let place = place_of(keys, a.name, 0);
    if place < read.len() {
        assert(animation_read_back(animations.take(from)[place], read[place]));
        assert(names(animations)[place] == animations[place].name);
        assert(names(animations)[from] == animations[from].name);
    }
}

/// The animations from place `from` on that were written are read back,
/// when the animations before them were.
proof fn animations_round_trip(
    animations: Seq<AnimationView>,
    from: int,
    read: Seq<AnimationView>,
    rest: Seq<u8>,
)
    requires
        0 <= from <= animations.len(),
        distinct(names(animations)),
        first_animation_error(animations, from) is None,
        animations_read_back(animations.take(from), read),
    ensures
        take_animations(
            animations_bytes(animations, from) + rest,
            (animations.len() - from) as nat,
            read,
        ) matches Ok((all, after)) && after == rest && animations_read_back(animations, all),
    decreases animations.len() - from,
{
    if from == animations.len() {
        assert(animations_bytes(animations, from) + rest =~= rest);
        assert(animations.take(from) =~= animations);
    } else {
        let tail = animations_bytes(animations, from + 1) + rest;
        append_assoc(animations[from].bytes(), animations_bytes(animations, from + 1), rest);
        animation_round_trip(animations[from], tail);
        let r = take_animation(animations[from].bytes() + tail)->Ok_0.0;
        new_name_goes_last(animations, from, read, r);
        assert(animations_read_back(animations.take(from + 1), read.push(r))) by {
            assert forall|j: int| 0 <= j < from + 1 implies animation_read_back(
                animations.take(from + 1)[j],
                #[trigger] read.push(r)[j],
            ) by {
                if j < from {
                    assert(animations.take(from)[j] == animations[j]);
                    assert(read.push(r)[j] == read[j]);
                }
            }
        }
        animations_round_trip(animations, from + 1, read.push(r), rest);
    }
}

/// A class that can be written, and whose animations all have names of
/// their own, is written whole and is read back: nothing in it but the sign
/// of a zero and the step of an opacity can differ, and the bytes behind the
/// class are left.
pub proof fn class_round_trip(c: ClassView, rest: Seq<u8>)
    requires
        c.write_error() is None,
        distinct(names(c.animations)),
    ensures
        c.written() == c.bytes(),
        take_class(c.bytes() + rest) matches Ok((read, after)) && after == rest
            && class_read_back(c, read),
{
    animations_are_written_whole(c.animations, 0);
    let s3 = animations_bytes(c.animations, 0) + rest;
    let s2 = le32(c.animations.len() as u32) + s3;
    let s1 = string_bytes(c.file_name) + s2;
    assert(c.bytes() + rest == string_bytes(c.index) + s1) by {
        append_assoc(c.head_bytes(), animations_bytes(c.animations, 0), rest);
        append_assoc(
            string_bytes(c.index) + string_bytes(c.file_name),
            le32(c.animations.len() as u32),
            s3,
        );
        append_assoc(string_bytes(c.index), string_bytes(c.file_name), s2);
    }
    string_round_trip(c.index, s1);
    string_round_trip(c.file_name, s2);
    u32_round_trip(c.animations.len() as u32, s3);
    assert(c.animations.take(0) =~= Seq::<AnimationView>::empty());
    animations_round_trip(c.animations, 0, Seq::<AnimationView>::empty(), rest);
}

/// Taking animations leaves no more bytes than there were.
proof fn animations_leave_no_more(s: Seq<u8>, count: nat, read: Seq<AnimationView>)
    ensures
        no_longer(take_animations(s, count, read), s),
    decreases count,
{
    if count > 0 {
        animation_leaves_no_more(s);
        match take_animation(s) {
            Ok((a, rest)) => {
                animations_leave_no_more(rest, (count - 1) as nat, with_animation(read, a));
            },
            Err(e) => {},
        }
    }
}

/// Taking a class leaves no more bytes than there were.
pub proof fn class_leaves_no_more(s: Seq<u8>)
    ensures
        no_longer(take_class(s), s),
{
    string_leaves_no_more(s);
    match take_string(s) {
        Ok((index, s1)) => {
            string_leaves_no_more(s1);
            match take_string(s1) {
                Ok((file_name, s2)) => match take_u32(s2) {
                    Ok((animation_count, s3)) => {
                        animations_leave_no_more(
                            s3,
                            animation_count as nat,
                            Seq::<AnimationView>::empty(),
                        );
                    },
                    Err(e) => {},
                },
                Err(e) => {},
            }
        },
        Err(e) => {},
    }
}

} // verus!
