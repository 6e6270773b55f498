//! File paths, as sequences of components.
//!
//! A path is absolute or relative and has a list of components, each a string of bytes without a
//! separator. Repeated separators, a trailing separator and components `.` (other than one that a
//! relative path begins with) carry no meaning and are not kept, so two paths are equal when
//! their components are. The operations are those of `std::path` on Unix. Paths of other systems
//! are not dealt with: a backslash and a drive letter are ordinary bytes.
use vstd::prelude::*;

verus! {

/// The byte that separates components: `/`.
pub const SEPARATOR: u8 = 47;

/// The byte that separates a file stem from an extension: `.`.
pub const DOT: u8 = 46;

/// What a path is: whether it begins at the root, and its components.
#[verifier::ext_equal]
pub struct PathModel {
    pub absolute: bool,
    pub components: Seq<Seq<u8>>,
}

/// The component `.`.
pub open spec fn current_dir() -> Seq<u8> {
    seq![DOT]
}

/// The component `..`.
pub open spec fn parent_dir() -> Seq<u8> {
    seq![DOT, DOT]
}

/// Whether a component names a file or a directory, rather than being `.` or `..`.
pub open spec fn is_normal(component: Seq<u8>) -> bool {
    component != current_dir() && component != parent_dir()
}

/// The position of the last dot of a file name, or -1.
pub open spec fn last_dot(name: Seq<u8>) -> int
    decreases name.len(),
{
    if name.len() == 0 {
        -1
    } else if name.last() == DOT {
        name.len() - 1
    } else {
        last_dot(name.drop_last())
    }
}

/// The file name without its extension. A name whose only dot is its first byte has none.
pub open spec fn file_stem(name: Seq<u8>) -> Seq<u8> {
    if last_dot(name) <= 0 {
        name
    } else {
        name.take(last_dot(name))
    }
}

/// The pieces of a text between its separators, the empty ones among them.
pub open spec fn pieces(text: Seq<u8>) -> Seq<Seq<u8>>
    decreases text.len(),
{
    if text.len() == 0 {
        seq![Seq::empty()]
    } else {
        let before = pieces(text.drop_last());
        if text.last() == SEPARATOR {
            before.push(Seq::empty())
        } else {
            before.drop_last().push(before.last().push(text.last()))
        }
    }
}

/// Whether a piece of a text is a component: it is not empty, and it is not `.` unless the text
/// begins with it.
pub open spec fn is_kept(piece: Seq<u8>, first: bool) -> bool {
    piece.len() > 0 && (piece != current_dir() || first)
}

/// The pieces that are components, in order.
pub open spec fn kept(pieces: Seq<Seq<u8>>) -> Seq<Seq<u8>>
    decreases pieces.len(),
{
    if pieces.len() == 0 {
        Seq::empty()
    } else {
        let before = kept(pieces.drop_last());
        if is_kept(pieces.last(), pieces.len() == 1) {
            before.push(pieces.last())
        } else {
            before
        }
    }
}

/// The path that a text denotes.
pub open spec fn path_of(text: Seq<u8>) -> PathModel {
    PathModel {
        absolute: text.len() > 0 && text[0] == SEPARATOR,
        components: kept(pieces(text)),
    }
}

/// Components without a `.` that they begin with.
pub open spec fn without_current_dir(components: Seq<Seq<u8>>) -> Seq<Seq<u8>> {
    if components.len() > 0 && components[0] == current_dir() {
        components.drop_first()
    } else {
        components
    }
}

impl PathModel {
    /// Whether every component is one that a text can give.
    pub open spec fn well_formed(self) -> bool {
        forall|i: int| #![trigger self.components[i]]
            0 <= i < self.components.len() ==> {
                &&& is_kept(self.components[i], i == 0 && !self.absolute)
                &&& !self.components[i].contains(SEPARATOR)
            }
    }

    /// The path without components: the root, or the empty path.
    pub open spec fn is_bare(self) -> bool {
        self.components.len() == 0
    }

    /// `other` as seen from this path: `other` itself where it is absolute.
    pub open spec fn join(self, other: PathModel) -> PathModel {
        if other.absolute || (self.is_bare() && !self.absolute) {
            other
        } else {
            PathModel {
                absolute: self.absolute,
                components: self.components + without_current_dir(other.components),
            }
        }
    }

    /// The path without its last component, where it has one.
    pub open spec fn parent(self) -> Option<PathModel> {
        if self.is_bare() {
            None
        } else {
            Some(PathModel { absolute: self.absolute, components: self.components.drop_last() })
        }
    }

    /// The last component, where it names a file or a directory.
    pub open spec fn file_name(self) -> Option<Seq<u8>> {
        if !self.is_bare() && is_normal(self.components.last()) {
            Some(self.components.last())
        } else {
            None
        }
    }

    /// The path whose file name has `extension` in place of its own extension, if it has a file
    /// name.
    pub open spec fn with_extension(self, extension: Seq<u8>) -> PathModel {
        match self.file_name() {
            None => self,
            Some(name) => PathModel {
                absolute: self.absolute,
                components: self.components.drop_last().push(
                    file_stem(name).push(DOT) + extension,
                ),
            },
        }
    }

    /// Whether the file name has an extension, and which: what follows its last dot, unless that
    /// is its first byte.
    pub open spec fn has_extension(self, extension: Seq<u8>) -> bool {
        match self.file_name() {
            None => false,
            Some(name) => last_dot(name) > 0 && name.skip(last_dot(name) + 1) == extension,
        }
    }

    /// What follows `base` in this path, where this path begins with the components of `base`.
    pub open spec fn strip_prefix(self, base: PathModel) -> Option<PathModel> {
        if base.is_bare() && !base.absolute {
            Some(self)
        } else if self.absolute == base.absolute && base.components.is_prefix_of(self.components) {
            Some(
                PathModel {
                    absolute: false,
                    components: self.components.skip(base.components.len() as int),
                },
            )
        } else {
            None
        }
    }
}

/// The views of a list of byte strings.
pub open spec fn byte_strings(list: Seq<Vec<u8>>) -> Seq<Seq<u8>> {
    list.map_values(|bytes: Vec<u8>| bytes@)
}

/// The views of a list of paths.
pub open spec fn path_views(paths: Seq<FilePath>) -> Seq<PathModel> {
    paths.map_values(|path: FilePath| path@)
}

/// A copy of a byte string.
fn copy_bytes(bytes: &[u8]) -> (copy: Vec<u8>)
    ensures
        copy@ == bytes@,
{
    let mut copy: Vec<u8> = Vec::new();
    let mut i: usize = 0;
    while i < bytes.len()
        invariant
            i <= bytes.len(),
            copy@ == bytes@.take(i as int),
        decreases bytes.len() - i,
    {
        copy.push(bytes[i]);
        i = i + 1;
        assert(copy@ =~= bytes@.take(i as int));
    }
    assert(bytes@.take(i as int) =~= bytes@);
    copy
}

/// Whether two byte strings are equal.
fn same_bytes(left: &[u8], right: &[u8]) -> (same: bool)
    ensures
        same == (left@ == right@),
{
    if left.len() != right.len() {
        return false;
    }
    let mut i: usize = 0;
    while i < left.len()
        invariant
            i <= left.len(),
            left.len() == right.len(),
            forall|j: int| 0 <= j < i ==> left@[j] == right@[j],
        decreases left.len() - i,
    {
        if left[i] != right[i] {
            return false;
        }
        i = i + 1;
    }
    assert(left@ =~= right@);
    true
}

/// Pushing onto a list of byte strings pushes onto its views.
proof fn lemma_byte_strings_push(list: Seq<Vec<u8>>, bytes: Vec<u8>)
    ensures
        byte_strings(list.push(bytes)) == byte_strings(list).push(bytes@),
{
    assert(byte_strings(list.push(bytes)) =~= byte_strings(list).push(bytes@));
}

/// Appends copies of the components from position `from` on.
fn append_components(target: &mut Vec<Vec<u8>>, components: &Vec<Vec<u8>>, from: usize)
    requires
        from <= components@.len(),
    ensures
        byte_strings(final(target)@) == byte_strings(old(target)@) + byte_strings(
            components@,
        ).skip(from as int),
{
    let mut i: usize = from;
    proof {
        assert(byte_strings(target@) =~= byte_strings(old(target)@) + byte_strings(
            components@,
        ).subrange(from as int, i as int));
    }
    while i < components.len()
        invariant
            from <= i <= components@.len(),
            byte_strings(target@) == byte_strings(old(target)@) + byte_strings(
                components@,
            ).subrange(from as int, i as int),
        decreases components@.len() - i,
    {
        let component = copy_bytes(&components[i]);
        proof {
            lemma_byte_strings_push(target@, component);
        }
        target.push(component);
        i = i + 1;
        proof {
            assert(byte_strings(target@) =~= byte_strings(old(target)@) + byte_strings(
                components@,
            ).subrange(from as int, i as int));
        }
    }
    proof {
        assert(byte_strings(components@).subrange(from as int, i as int) =~= byte_strings(
            components@,
        ).skip(from as int));
    }
}

/// The pieces of a text hold no separator, and there is at least one.
pub(crate) proof fn lemma_pieces(text: Seq<u8>)
    ensures
        pieces(text).len() > 0,
        forall|i: int|
            #![trigger pieces(text)[i]]
            0 <= i < pieces(text).len() ==> !pieces(text)[i].contains(SEPARATOR),
        text.len() > 0 && text[0] == SEPARATOR ==> pieces(text)[0].len() == 0,
    decreases text.len(),
{
    if text.len() > 0 {
        let before = text.drop_last();
        lemma_pieces(before);
        assert forall|i: int|
            #![trigger pieces(text)[i]]
            0 <= i < pieces(text).len() implies !pieces(text)[i].contains(SEPARATOR) by {
            if text.last() != SEPARATOR && i == pieces(text).len() - 1 {
                let old_last = pieces(before).last();
                assert(!pieces(before)[pieces(before).len() - 1].contains(SEPARATOR));
                let piece = pieces(text)[i];
                if piece.contains(SEPARATOR) {
                    let k = choose|k: int| 0 <= k < piece.len() && piece[k] == SEPARATOR;
                    assert(old_last[k] == SEPARATOR);
                }
            } else if i < pieces(before).len() {
                assert(pieces(text)[i] == pieces(before)[i]);
            }
        }
        if text[0] == SEPARATOR {
            if text.len() == 1 {
                assert(before =~= Seq::<u8>::empty());
                assert(pieces(before)[0].len() == 0);
            } else if text.last() != SEPARATOR && pieces(before).len() == 1 {
                lemma_pieces_count(before);
            }
        }
    }
}

/// A text that begins with a separator has at least two pieces.
proof fn lemma_pieces_count(text: Seq<u8>)
    requires
        text.len() > 0,
        text[0] == SEPARATOR,
    ensures
        pieces(text).len() >= 2,
    decreases text.len(),
{
    if text.len() > 1 {
        lemma_pieces_count(text.drop_last());
    } else {
        assert(text.drop_last() =~= Seq::<u8>::empty());
        assert(pieces(text.drop_last()).len() == 1);
    }
}

/// What is kept of the pieces of a text: nothing with a separator, and `.` only where the first
/// piece is `.`.
proof fn lemma_kept(list: Seq<Seq<u8>>)
    ensures
        forall|i: int| #![trigger kept(list)[i]]
            0 <= i < kept(list).len() ==> {
                &&& list.contains(kept(list)[i])
                &&& is_kept(kept(list)[i], i == 0 && list[0] == kept(list)[0])
            },
    decreases list.len(),
{
    if list.len() > 0 {
        let before = list.drop_last();
        lemma_kept(before);
        assert forall|i: int| #![trigger kept(list)[i]] 0 <= i < kept(list).len() implies {
            &&& list.contains(kept(list)[i])
            &&& is_kept(kept(list)[i], i == 0 && list[0] == kept(list)[0])
        } by {
            if i < kept(before).len() {
                assert(kept(list)[i] == kept(before)[i]);
                let k = choose|k: int| 0 <= k < before.len() && before[k] == kept(before)[i];
                assert(list[k] == kept(list)[i]);
                if list.len() == 1 {
                    assert(kept(before) =~= Seq::<Seq<u8>>::empty());
                }
            } else {
                assert(list[list.len() - 1] == kept(list)[i]);
                if list.len() == 1 {
                    assert(before =~= Seq::<Seq<u8>>::empty());
                    assert(kept(before).len() == 0);
                }
            }
        }
    }
}

/// The path of a text is well-formed.
pub(crate) proof fn lemma_path_of_well_formed(text: Seq<u8>)
    ensures
        path_of(text).well_formed(),
{
    let list = pieces(text);
    let path = path_of(text);
    lemma_pieces(text);
    lemma_kept(list);
    assert forall|i: int| #![trigger path.components[i]]
        0 <= i < path.components.len() implies {
        &&& is_kept(path.components[i], i == 0 && !path.absolute)
        &&& !path.components[i].contains(SEPARATOR)
    } by {
        let component = kept(list)[i];
        assert(path.components[i] == component);
        let k = choose|k: int| 0 <= k < list.len() && list[k] == component;
        assert(!list[k].contains(SEPARATOR));
    }
}

/// Joining well-formed paths gives a well-formed path.
pub(crate) proof fn lemma_join_well_formed(path: PathModel, other: PathModel)
    requires
        path.well_formed(),
        other.well_formed(),
    ensures
        path.join(other).well_formed(),
{
    let joined = path.join(other);
    let rest = without_current_dir(other.components);
    assert forall|i: int| #![trigger joined.components[i]]
        0 <= i < joined.components.len() implies {
        &&& is_kept(joined.components[i], i == 0 && !joined.absolute)
        &&& !joined.components[i].contains(SEPARATOR)
    } by {
        if other.absolute || (path.is_bare() && !path.absolute) {
            assert(joined.components[i] == other.components[i]);
        } else if i < path.components.len() {
            assert(joined.components[i] == path.components[i]);
        } else {
            let k = i - path.components.len();
            let skipped: int = other.components.len() - rest.len();
            assert(rest[k] == other.components[k + skipped]);
        }
    }
}

/// The bytes of `.` and `..`.
proof fn lemma_dots()
    ensures
        vstd::utf8::encode_utf8("."@) == current_dir(),
        vstd::utf8::encode_utf8(".."@) == parent_dir(),
{
    reveal_strlit(".");
    reveal_strlit("..");
    vstd::utf8::is_ascii_chars_encode_utf8("."@);
    vstd::utf8::is_ascii_chars_encode_utf8(".."@);
    assert(vstd::utf8::encode_utf8("."@) =~= current_dir());
    assert(vstd::utf8::encode_utf8(".."@) =~= parent_dir());
}

/// The components of a text hold no byte that the text does not.
pub(crate) proof fn lemma_components_hold_no_other_byte(text: Seq<u8>, byte: u8)
    requires
        !text.contains(byte),
    ensures
        forall|i: int| #![trigger path_of(text).components[i]]
            0 <= i < path_of(text).components.len() ==> !path_of(text).components[i].contains(byte),
{
    let list = pieces(text);
    lemma_pieces_hold_no_other_byte(text, byte);
    lemma_kept(list);
    assert forall|i: int| #![trigger path_of(text).components[i]]
        0 <= i < path_of(text).components.len() implies !path_of(text).components[i].contains(
        byte,
    ) by {
        let component = kept(list)[i];
        let k = choose|k: int| 0 <= k < list.len() && list[k] == component;
        assert(!list[k].contains(byte));
    }
}

/// The pieces of a text hold no byte that the text does not.
proof fn lemma_pieces_hold_no_other_byte(text: Seq<u8>, byte: u8)
    requires
        !text.contains(byte),
    ensures
        forall|i: int|
            #![trigger pieces(text)[i]]
            0 <= i < pieces(text).len() ==> !pieces(text)[i].contains(byte),
    decreases text.len(),
{
    if text.len() > 0 {
        let before = text.drop_last();
        assert(!before.contains(byte)) by {
            if before.contains(byte) {
                let k = choose|k: int| 0 <= k < before.len() && before[k] == byte;
                assert(text[k] == byte);
            }
        }
        assert(text.contains(text[text.len() - 1]));
        lemma_pieces_hold_no_other_byte(before, byte);
        lemma_pieces(before);
        assert forall|i: int| #![trigger pieces(text)[i]] 0 <= i < pieces(text).len() implies
            !pieces(text)[i].contains(byte) by {
            let piece = pieces(text)[i];
            if piece.contains(byte) {
                let k = choose|k: int| 0 <= k < piece.len() && piece[k] == byte;
                if text.last() != SEPARATOR && i == pieces(text).len() - 1 {
                    assert(!pieces(before)[pieces(before).len() - 1].contains(byte));
                    assert(pieces(before).last()[k] == byte);
                } else {
                    assert(pieces(before)[i] == piece);
                }
            }
        }
    }
}

/// A name is a path of its own, with itself as the only component.
pub(crate) proof fn lemma_path_of_name(name: Seq<u8>)
    requires
        name.len() > 0,
        !name.contains(SEPARATOR),
    ensures
        path_of(name) == (PathModel { absolute: false, components: seq![name] }),
{
    lemma_one_piece(name);
    assert(name.contains(name[0]));
    let list = seq![name];
    assert(list.drop_last() =~= Seq::<Seq<u8>>::empty());
    assert(kept(list.drop_last()) =~= Seq::<Seq<u8>>::empty());
    assert(kept(list) =~= list);
}

/// A file stem is not empty unless the name is, and holds no byte that the name does not.
proof fn lemma_file_stem(name: Seq<u8>)
    ensures
        -1 <= last_dot(name) < name.len(),
        last_dot(name) >= 0 ==> name[last_dot(name)] == DOT,
        name.len() > 0 ==> file_stem(name).len() > 0,
        forall|i: int| 0 <= i < file_stem(name).len() ==> file_stem(name)[i] == name[i],
    decreases name.len(),
{
    if name.len() > 0 {
        lemma_file_stem(name.drop_last());
    }
}

/// A name without dots has no last dot.
pub(crate) proof fn lemma_dotless(name: Seq<u8>)
    requires
        !name.contains(DOT),
    ensures
        last_dot(name) == -1,
    decreases name.len(),
{
    if name.len() > 0 {
        assert(name.contains(name[name.len() - 1]));
        let shorter = name.drop_last();
        assert(!shorter.contains(DOT)) by {
            if shorter.contains(DOT) {
                let k = choose|k: int| 0 <= k < shorter.len() && shorter[k] == DOT;
                assert(name[k] == DOT);
            }
        }
        lemma_dotless(shorter);
    }
}

/// The last dot is the one before an extension without dots.
pub(crate) proof fn lemma_last_dot(name: Seq<u8>, extension: Seq<u8>)
    requires
        !extension.contains(DOT),
    ensures
        last_dot(name.push(DOT) + extension) == name.len(),
    decreases extension.len(),
{
    let whole = name.push(DOT) + extension;
    if extension.len() == 0 {
        assert(whole =~= name.push(DOT));
    } else {
        let shorter = extension.drop_last();
        assert(extension.contains(extension[extension.len() - 1]));
        assert(!shorter.contains(DOT)) by {
            if shorter.contains(DOT) {
                let k = choose|k: int| 0 <= k < shorter.len() && shorter[k] == DOT;
                assert(extension[k] == DOT);
            }
        }
        assert(whole.drop_last() =~= name.push(DOT) + shorter);
        lemma_last_dot(name, shorter);
    }
}

/// Giving a well-formed path an extension gives a well-formed path.
pub(crate) proof fn lemma_with_extension_well_formed(path: PathModel, extension: Seq<u8>)
    requires
        path.well_formed(),
        !extension.contains(SEPARATOR),
    ensures
        path.with_extension(extension).well_formed(),
{
    let changed = path.with_extension(extension);
    assert forall|i: int| #![trigger changed.components[i]]
        0 <= i < changed.components.len() implies {
        &&& is_kept(changed.components[i], i == 0 && !changed.absolute)
        &&& !changed.components[i].contains(SEPARATOR)
    } by {
        assert(is_kept(path.components[i], i == 0 && !path.absolute));
        if path.file_name() is Some && i == changed.components.len() - 1 {
            let name = path.components[i];
            let last = changed.components[i];
            lemma_file_stem(name);
            assert(last.len() > 1);
            if last.contains(SEPARATOR) {
                let k = choose|k: int| 0 <= k < last.len() && last[k] == SEPARATOR;
                if k < file_stem(name).len() {
                    assert(name[k] == SEPARATOR);
                } else if k > file_stem(name).len() {
                    assert(extension[k - file_stem(name).len() - 1] == SEPARATOR);
                }
            }
        } else {
            assert(changed.components[i] == path.components[i]);
        }
    }
}

/// Components with a separator between any two.
pub open spec fn joined(components: Seq<Seq<u8>>) -> Seq<u8>
    decreases components.len(),
{
    if components.len() == 0 {
        Seq::empty()
    } else if components.len() == 1 {
        components[0]
    } else {
        joined(components.drop_last()).push(SEPARATOR) + components.last()
    }
}

/// The text of a path.
pub open spec fn text_of(path: PathModel) -> Seq<u8> {
    (if path.absolute {
        seq![SEPARATOR]
    } else {
        Seq::empty()
    }) + joined(path.components)
}

/// The pieces of a text that is followed by a separator and a text without one.
proof fn lemma_pieces_of_sum(text: Seq<u8>, last: Seq<u8>)
    requires
        !last.contains(SEPARATOR),
    ensures
        pieces(text.push(SEPARATOR) + last) == pieces(text).push(last),
    decreases last.len(),
{
    let whole = text.push(SEPARATOR) + last;
    if last.len() == 0 {
        assert(whole =~= text.push(SEPARATOR));
        assert(whole.drop_last() =~= text);
        assert(last =~= Seq::<u8>::empty());
    } else {
        let shorter = last.drop_last();
        assert(whole.drop_last() =~= text.push(SEPARATOR) + shorter);
        assert(last.contains(last[last.len() - 1]));
        assert(!shorter.contains(SEPARATOR)) by {
            if shorter.contains(SEPARATOR) {
                let k = choose|k: int| 0 <= k < shorter.len() && shorter[k] == SEPARATOR;
                assert(last[k] == SEPARATOR);
            }
        }
        lemma_pieces_of_sum(text, shorter);
        assert(pieces(text).push(shorter).drop_last() =~= pieces(text));
        assert(shorter.push(last.last()) =~= last);
    }
}

/// A text without a separator is its only piece.
proof fn lemma_one_piece(text: Seq<u8>)
    requires
        !text.contains(SEPARATOR),
    ensures
        pieces(text) == seq![text],
    decreases text.len(),
{
    if text.len() == 0 {
        assert(text =~= Seq::<u8>::empty());
    } else {
        let shorter = text.drop_last();
        assert(text.contains(text[text.len() - 1]));
        assert(!shorter.contains(SEPARATOR)) by {
            if shorter.contains(SEPARATOR) {
                let k = choose|k: int| 0 <= k < shorter.len() && shorter[k] == SEPARATOR;
                assert(text[k] == SEPARATOR);
            }
        }
        lemma_one_piece(shorter);
        assert(pieces(text) =~= seq![text]) by {
            assert(shorter.push(text.last()) =~= text);
        }
    }
}

/// The components of a text with a separator between any two are its pieces, after those of what
/// stands before it.
proof fn lemma_pieces_of_joined(start: Seq<u8>, components: Seq<Seq<u8>>)
    requires
        components.len() > 0,
        start.len() == 0 || start == seq![SEPARATOR],
        forall|i: int|
            #![trigger components[i]]
            0 <= i < components.len() ==> !components[i].contains(SEPARATOR),
    ensures
        pieces(start + joined(components)) == if start.len() == 0 {
            components
        } else {
            seq![Seq::<u8>::empty()] + components
        },
    decreases components.len(),
{
    let last = components.last();
    assert(last == components[components.len() - 1]);
    if components.len() == 1 {
        if start.len() == 0 {
            assert(start + joined(components) =~= last);
            lemma_one_piece(last);
            assert(components =~= seq![last]);
        } else {
            let none = Seq::<u8>::empty();
            assert(start + joined(components) =~= none.push(SEPARATOR) + last);
            lemma_pieces_of_sum(none, last);
            assert(pieces(none).push(last) =~= seq![none] + components);
        }
    } else {
        let before = components.drop_last();
        assert forall|i: int| #![trigger before[i]] 0 <= i < before.len() implies
            !before[i].contains(SEPARATOR) by {
            assert(before[i] == components[i]);
        }
        lemma_pieces_of_joined(start, before);
        assert(start + joined(components) =~= (start + joined(before)).push(SEPARATOR) + last);
        lemma_pieces_of_sum(start + joined(before), last);
        assert(before.push(last) =~= components);
        if start.len() > 0 {
            let none = seq![Seq::<u8>::empty()];
            assert((none + before).push(last) =~= none + components);
        }
    }
}

/// Everything is kept of a list of components, with or without an empty piece before it.
proof fn lemma_kept_components(components: Seq<Seq<u8>>, absolute: bool)
    requires
        forall|i: int| #![trigger components[i]]
            0 <= i < components.len() ==> is_kept(components[i], i == 0 && !absolute),
    ensures
        kept(
            if absolute {
                seq![Seq::<u8>::empty()] + components
            } else {
                components
            },
        ) == components,
    decreases components.len(),
{
    let none = seq![Seq::<u8>::empty()];
    if components.len() == 0 {
        assert(none + components =~= none);
        assert(kept(none) =~= kept(none.drop_last()));
        assert(none.drop_last() =~= Seq::<Seq<u8>>::empty());
        assert(components =~= Seq::<Seq<u8>>::empty());
    } else {
        let before = components.drop_last();
        assert forall|i: int| #![trigger before[i]] 0 <= i < before.len() implies is_kept(
            before[i],
            i == 0 && !absolute,
        ) by {
            assert(before[i] == components[i]);
        }
        lemma_kept_components(before, absolute);
        assert(is_kept(components[components.len() - 1], components.len() == 1 && !absolute));
        assert((none + components).drop_last() =~= none + before);
        assert(before.push(components.last()) =~= components);
    }
}

/// Reading the text of a path gives the path.
pub proof fn law_text_is_read_back(path: PathModel)
    requires
        path.well_formed(),
    ensures
        path_of(text_of(path)) == path,
{
    let text = text_of(path);
    let components = path.components;
    assert forall|i: int| #![trigger components[i]] 0 <= i < components.len() implies
        !components[i].contains(SEPARATOR) && is_kept(components[i], i == 0 && !path.absolute) by {
        assert(path.components[i] == components[i]);
    }
    lemma_kept_components(components, path.absolute);
    let start = if path.absolute {
        seq![SEPARATOR]
    } else {
        Seq::<u8>::empty()
    };
    let none = Seq::<u8>::empty();
    if components.len() > 0 {
        lemma_pieces_of_joined(start, components);
        if !path.absolute {
            assert(components[0].len() > 0);
            lemma_joined_first(components);
            assert(text =~= joined(components));
            assert(components[0].contains(components[0][0]));
        }
    } else {
        assert(text =~= start);
        if path.absolute {
            lemma_pieces_of_sum(none, none);
            assert(none.push(SEPARATOR) + none =~= start);
            assert(pieces(text) =~= seq![none, none]);
            assert(kept(seq![none, none]) =~= Seq::<Seq<u8>>::empty()) by {
                reveal_with_fuel(kept, 3);
                assert(seq![none, none].drop_last() =~= seq![none]);
                assert(seq![none].drop_last() =~= Seq::<Seq<u8>>::empty());
            }
        } else {
            assert(kept(seq![none]) =~= kept(seq![none].drop_last()));
            assert(seq![none].drop_last() =~= Seq::<Seq<u8>>::empty());
        }
    }
    assert(path_of(text).components =~= components);
}

/// Joined components begin as the first one does.
proof fn lemma_joined_first(components: Seq<Seq<u8>>)
    requires
        components.len() > 0,
        components[0].len() > 0,
    ensures
        joined(components).len() > 0,
        joined(components)[0] == components[0][0],
    decreases components.len(),
{
    if components.len() > 1 {
        lemma_joined_first(components.drop_last());
    }
}

/// A path of the file system.
#[derive(Debug)]
pub struct FilePath {
    absolute: bool,
    components: Vec<Vec<u8>>,
}

impl View for FilePath {
    type V = PathModel;

    closed spec fn view(&self) -> PathModel {
        PathModel { absolute: self.absolute, components: byte_strings(self.components@) }
    }
}

impl Clone for FilePath {
    fn clone(&self) -> (copy: Self)
        ensures
            copy@ == self@,
            copy@.well_formed(),
    {
        proof {
            use_type_invariant(self);
        }
        let mut components: Vec<Vec<u8>> = Vec::new();
        append_components(&mut components, &self.components, 0);
        proof {
            assert(byte_strings(components@) =~= byte_strings(self.components@));
        }
        FilePath { absolute: self.absolute, components }
    }
}

impl FilePath {
    #[verifier::type_invariant]
    spec fn is_valid(self) -> bool {
        self@.well_formed()
    }

    /// Reads a path.
    pub fn parse(text: &[u8]) -> (path: FilePath)
        ensures
            path@ == path_of(text@),
            path@.well_formed(),
    {
        let mut components: Vec<Vec<u8>> = Vec::new();
        let mut piece: Vec<u8> = Vec::new();
        let mut first = true;
        let ghost mut whole: Seq<Seq<u8>> = Seq::empty();
        let mut i: usize = 0;
        assert(text@.take(0) =~= Seq::<u8>::empty());
        assert(pieces(text@.take(0)) =~= whole.push(piece@));
        assert(byte_strings(components@) =~= kept(whole));
        while i < text.len()
            invariant
                i <= text.len(),
                pieces(text@.take(i as int)) == whole.push(piece@),
                byte_strings(components@) == kept(whole),
                first == (whole.len() == 0),
            decreases text.len() - i,
        {
            let byte = text[i];
            let ghost before = text@.take(i as int);
            i = i + 1;
            assert(text@.take(i as int).drop_last() =~= before);
            if byte == SEPARATOR {
                let ghost done = piece@;
                components = keep_piece(components, piece, first);
                proof {
                    assert(whole.push(done).drop_last() =~= whole);
                    whole = whole.push(done);
                }
                first = false;
                piece = Vec::new();
            } else {
                let ghost done = piece@;
                piece.push(byte);
                assert(whole.push(done).drop_last() =~= whole);
            }
        }
        let ghost done = piece@;
        components = keep_piece(components, piece, first);
        proof {
            assert(whole.push(done).drop_last() =~= whole);
            assert(text@.take(i as int) =~= text@);
            lemma_path_of_well_formed(text@);
        }
        FilePath { absolute: text.len() > 0 && text[0] == SEPARATOR, components }
    }

    /// `other` as seen from this path.
    pub fn join(&self, other: &FilePath) -> (path: FilePath)
        ensures
            path@ == self@.join(other@),
            path@.well_formed(),
    {
        if other.absolute || (self.components.len() == 0 && !self.absolute) {
            return other.clone();
        }
        let mut components: Vec<Vec<u8>> = Vec::new();
        append_components(&mut components, &self.components, 0);
        let mut from: usize = 0;
        if other.components.len() > 0 {
            let first = &other.components[0];
            if first.len() == 1 && first[0] == DOT {
                from = 1;
            }
            proof {
                assert(byte_strings(other.components@)[0] == first@);
                if from == 1 {
                    assert(first@ =~= current_dir());
                }
            }
        }
        append_components(&mut components, &other.components, from);
        proof {
            use_type_invariant(self);
            use_type_invariant(other);
            assert(byte_strings(self.components@).skip(0) =~= byte_strings(self.components@));
            assert(byte_strings(other.components@).skip(from as int) =~= without_current_dir(
                other@.components,
            ));
            assert(byte_strings(components@) =~= self@.join(other@).components);
            lemma_join_well_formed(self@, other@);
        }
        FilePath { absolute: self.absolute, components }
    }

    /// The path of the entry `name` under this one.
    pub fn child(&self, name: &str) -> (path: FilePath)
        ensures
            path@ == self@.join(path_of(vstd::utf8::encode_utf8(name@))),
            path@.well_formed(),
    {
        self.join(&FilePath::parse(name.as_bytes()))
    }

    /// The path without its last component, where it has one.
    pub fn parent(&self) -> (parent: Option<FilePath>)
        ensures
            match parent {
                None => self@.parent() is None,
                Some(path) => self@.parent() == Some(path@) && path@.well_formed(),
            },
    {
        if self.components.len() == 0 {
            return None;
        }
        Some(self.up())
    }

    /// The path without its last component.
    fn up(&self) -> (path: FilePath)
        requires
            !self@.is_bare(),
        ensures
            self@.parent() == Some(path@),
            path@.well_formed(),
    {
        proof {
            use_type_invariant(self);
        }
        let mut components: Vec<Vec<u8>> = Vec::new();
        append_components(&mut components, &self.components, 0);
        components.pop();
        proof {
            assert(byte_strings(components@) =~= self@.components.drop_last());
            let shorter = PathModel {
                absolute: self.absolute,
                components: self@.components.drop_last(),
            };
            assert forall|i: int| #![trigger shorter.components[i]]
                0 <= i < shorter.components.len() implies {
                &&& is_kept(shorter.components[i], i == 0 && !shorter.absolute)
                &&& !shorter.components[i].contains(SEPARATOR)
            } by {
                assert(shorter.components[i] == self@.components[i]);
            }
        }
        FilePath { absolute: self.absolute, components }
    }

    /// The last component, where it names a file or a directory.
    pub fn file_name(&self) -> (name: Option<Vec<u8>>)
        ensures
            match name {
                None => self@.file_name() is None,
                Some(bytes) => self@.file_name() == Some(bytes@),
            },
    {
        if self.components.len() == 0 {
            return None;
        }
        let last = &self.components[self.components.len() - 1];
        proof {
            assert(self@.components.last() == last@);
        }
        if same_bytes(last, ".".as_bytes()) || same_bytes(last, "..".as_bytes()) {
            proof {
                lemma_dots();
            }
            return None;
        }
        proof {
            lemma_dots();
        }
        Some(copy_bytes(last))
    }

    /// The path with another extension: `extension` takes the place of the one that the file
    /// name has, or is added to it. A path without a file name stays as it is.
    pub fn with_extension(&self, extension: &str) -> (path: FilePath)
        requires
            extension@.len() > 0,
            !vstd::utf8::encode_utf8(extension@).contains(SEPARATOR),
        ensures
            path@ == self@.with_extension(vstd::utf8::encode_utf8(extension@)),
            path@.well_formed(),
    {
        match self.file_name() {
            None => self.clone(),
            Some(name) => {
                let bytes = extension.as_bytes();
                let mut last = stem(&name);
                last.push(DOT);
                append_bytes(&mut last, bytes);
                let parent = self.up();
                proof {
                    use_type_invariant(self);
                    lemma_with_extension_well_formed(self@, bytes@);
                }
                let mut components: Vec<Vec<u8>> = Vec::new();
                append_components(&mut components, &parent.components, 0);
                proof {
                    lemma_byte_strings_push(components@, last);
                    assert(byte_strings(parent.components@).skip(0) =~= parent@.components);
                }
                components.push(last);
                proof {
                    assert(byte_strings(components@) =~= self@.with_extension(bytes@).components);
                }
                FilePath { absolute: self.absolute, components }
            },
        }
    }

    /// Whether the file name has a certain extension.
    pub fn has_extension(&self, extension: &str) -> (has: bool)
        ensures
            has == self@.has_extension(vstd::utf8::encode_utf8(extension@)),
    {
        match self.file_name() {
            None => false,
            Some(name) => {
                let bytes = extension.as_bytes();
                let mut whole = stem(&name);
                whole.push(DOT);
                append_bytes(&mut whole, bytes);
                proof {
                    let start = file_stem(name@).push(DOT);
                    lemma_file_stem(name@);
                    if last_dot(name@) > 0 {
                        assert(name@ =~= start + name@.skip(last_dot(name@) + 1));
                        assert((start + bytes@).skip(start.len() as int) =~= bytes@);
                    } else {
                        assert(whole@.len() > name@.len());
                    }
                }
                same_bytes(&whole, &name)
            },
        }
    }

    /// What follows `base` in this path, where this path begins with the components of `base`.
    pub fn strip_prefix(&self, base: &FilePath) -> (rest: Option<FilePath>)
        ensures
            match rest {
                None => self@.strip_prefix(base@) is None,
                Some(path) => self@.strip_prefix(base@) == Some(path@) && path@.well_formed(),
            },
    {
        if base.components.len() == 0 && !base.absolute {
            return Some(self.clone());
        }
        if self.absolute != base.absolute || self.components.len() < base.components.len() {
            return None;
        }
        let mut i: usize = 0;
        while i < base.components.len()
            invariant
                i <= base.components@.len() <= self.components@.len(),
                forall|j: int| 0 <= j < i ==> #[trigger] base@.components[j] == self@.components[j],
            decreases base.components@.len() - i,
        {
            if !same_bytes(&self.components[i], &base.components[i]) {
                proof {
                    assert(base@.components[i as int] != self@.components[i as int]);
                }
                return None;
            }
            proof {
                assert(base@.components[i as int] == self@.components[i as int]);
            }
            i = i + 1;
        }
        proof {
            assert(base@.components =~= self@.components.take(i as int));
        }
        let mut components: Vec<Vec<u8>> = Vec::new();
        append_components(&mut components, &self.components, i);
        proof {
            use_type_invariant(self);
            assert(byte_strings(components@) =~= self@.components.skip(i as int));
            let rest = PathModel { absolute: false, components: byte_strings(components@) };
            assert forall|j: int| #![trigger rest.components[j]]
                0 <= j < rest.components.len() implies {
                &&& is_kept(rest.components[j], j == 0 && !rest.absolute)
                &&& !rest.components[j].contains(SEPARATOR)
            } by {
                assert(rest.components[j] == self@.components[j + i]);
            }
        }
        Some(FilePath { absolute: false, components })
    }

    /// The text of the path: a separator where it is absolute, then its components with a
    /// separator between any two.
    pub fn to_bytes(&self) -> (text: Vec<u8>)
        ensures
            text@ == text_of(self@),
            path_of(text@) == self@,
    {
        let mut text: Vec<u8> = Vec::new();
        if self.absolute {
            text.push(SEPARATOR);
        }
        let ghost start = text@;
        proof {
            assert(start =~= if self@.absolute {
                seq![SEPARATOR]
            } else {
                Seq::empty()
            });
            assert(start =~= start + joined(self@.components.take(0)));
        }
        let mut i: usize = 0;
        while i < self.components.len()
            invariant
                i <= self.components@.len(),
                text@ == start + joined(self@.components.take(i as int)),
            decreases self.components@.len() - i,
        {
            proof {
                assert(self@.components.take(i + 1).drop_last() =~= self@.components.take(
                    i as int,
                ));
                assert(self@.components.take(i + 1).last() == self.components@[i as int]@);
            }
            if i > 0 {
                text.push(SEPARATOR);
            }
            append_bytes(&mut text, &self.components[i]);
            i = i + 1;
            proof {
                assert(text@ =~= start + joined(self@.components.take(i as int)));
            }
        }
        proof {
            assert(self@.components.take(i as int) =~= self@.components);
            use_type_invariant(self);
            law_text_is_read_back(self@);
        }
        text
    }
}

/// A copy of a list of paths.
pub(crate) fn copy_paths(paths: &Vec<FilePath>) -> (copy: Vec<FilePath>)
    ensures
        path_views(copy@) == path_views(paths@),
{
    let mut copy: Vec<FilePath> = Vec::new();
    let mut i: usize = 0;
    assert(path_views(copy@) =~= path_views(paths@).take(0));
    while i < paths.len()
        invariant
            i <= paths@.len(),
            path_views(copy@) == path_views(paths@).take(i as int),
        decreases paths@.len() - i,
    {
        let ghost before = copy@;
        let path = paths[i].clone();
        copy.push(path);
        i = i + 1;
        assert(path_views(copy@) =~= path_views(before).push(path@));
        assert(path_views(copy@) =~= path_views(paths@).take(i as int));
    }
    assert(path_views(paths@).take(i as int) =~= path_views(paths@));
    copy
}

/// Appends a byte string.
pub(crate) fn append_bytes(target: &mut Vec<u8>, bytes: &[u8])
    ensures
        final(target)@ == old(target)@ + bytes@,
{
    let mut i: usize = 0;
    proof {
        assert(target@ =~= old(target)@ + bytes@.take(0));
    }
    while i < bytes.len()
        invariant
            i <= bytes.len(),
            target@ == old(target)@ + bytes@.take(i as int),
        decreases bytes.len() - i,
    {
        target.push(bytes[i]);
        i = i + 1;
        proof {
            assert(target@ =~= old(target)@ + bytes@.take(i as int));
        }
    }
    proof {
        assert(bytes@.take(i as int) =~= bytes@);
    }
}

/// The file name without its extension.
fn stem(name: &Vec<u8>) -> (stem: Vec<u8>)
    ensures
        stem@ == file_stem(name@),
{
    let mut i: usize = name.len();
    proof {
        assert(name@.take(i as int) =~= name@);
    }
    while i > 0
        invariant
            i <= name@.len(),
            last_dot(name@) == last_dot(name@.take(i as int)),
        decreases i,
    {
        proof {
            assert(name@.take(i as int).drop_last() =~= name@.take(i - 1));
        }
        i = i - 1;
        if name[i] == DOT {
            if i == 0 {
                return copy_bytes(name);
            }
            return copy_bytes(vstd::slice::slice_subrange(name.as_slice(), 0, i));
        }
    }
    copy_bytes(name)
}

/// Appends a piece of a text to the components, if it is one.
fn keep_piece(components: Vec<Vec<u8>>, piece: Vec<u8>, first: bool) -> (result: Vec<Vec<u8>>)
    ensures
        byte_strings(result@) == if is_kept(piece@, first) {
            byte_strings(components@).push(piece@)
        } else {
            byte_strings(components@)
        },
{
    let mut result = components;
    let is_dot = piece.len() == 1 && piece[0] == DOT;
    proof {
        assert(is_dot == (piece@ == current_dir())) by {
            if is_dot {
                assert(piece@ =~= current_dir());
            }
        }
    }
    if piece.len() > 0 && (!is_dot || first) {
        proof {
            lemma_byte_strings_push(result@, piece);
        }
        result.push(piece);
    }
    result
}

/// A text is read piece by piece: what follows its last separator is one more component, unless it
/// is empty or `.`. A text without separators is its own component.
pub proof fn law_text_is_read_piece_by_piece(text: Seq<u8>, last: Seq<u8>)
    requires
        !last.contains(SEPARATOR),
    ensures
        path_of(text.push(SEPARATOR) + last) == (PathModel {
            absolute: text.len() == 0 || text[0] == SEPARATOR,
            components: if last.len() == 0 || last == seq![DOT] {
                path_of(text).components
            } else {
                path_of(text).components.push(last)
            },
        }),
        path_of(last) == (PathModel {
            absolute: false,
            components: if last.len() == 0 {
                Seq::empty()
            } else {
                seq![last]
            },
        }),
{
    let whole = text.push(SEPARATOR) + last;
    lemma_pieces_of_sum(text, last);
    lemma_pieces(text);
    assert(pieces(whole).drop_last() =~= pieces(text));
    assert(whole[0] == if text.len() == 0 {
        SEPARATOR
    } else {
        text[0]
    });
    if last.len() == 0 {
        lemma_one_piece(last);
        let none = Seq::<Seq<u8>>::empty();
        assert(pieces(last).drop_last() =~= none);
        assert(kept(none) =~= none);
        assert(path_of(last).components =~= Seq::<Seq<u8>>::empty());
    } else {
        lemma_path_of_name(last);
    }
}

/// A text is written component by component, with a separator between any two and one at the
/// beginning of an absolute path.
pub proof fn law_text_is_written_component_by_component(
    absolute: bool,
    components: Seq<Seq<u8>>,
    last: Seq<u8>,
)
    ensures
        text_of(PathModel { absolute, components: components.push(last) }) == text_of(
            PathModel { absolute, components },
        ) + if components.len() == 0 {
            last
        } else {
            seq![SEPARATOR] + last
        },
        text_of(PathModel { absolute, components: Seq::empty() }) == if absolute {
            seq![SEPARATOR]
        } else {
            Seq::<u8>::empty()
        },
{
    let none = Seq::<Seq<u8>>::empty();
    let longer = components.push(last);
    assert(longer.drop_last() =~= components);
    assert(joined(none) =~= Seq::<u8>::empty());
    if components.len() == 0 {
        assert(components =~= none);
    }
    assert(text_of(PathModel { absolute, components: longer }) =~= text_of(
        PathModel { absolute, components },
    ) + if components.len() == 0 {
        last
    } else {
        seq![SEPARATOR] + last
    });
    assert(text_of(PathModel { absolute, components: none }) =~= if absolute {
        seq![SEPARATOR]
    } else {
        Seq::<u8>::empty()
    });
}

/// Joining appends the components of a relative path, without a `.` that it begins with. An
/// absolute path takes the place of the one that it is joined to, and any path that of the empty
/// one.
pub proof fn law_join_appends(path: PathModel, other: PathModel)
    ensures
        other.absolute ==> path.join(other) == other,
        !path.absolute && path.components.len() == 0 ==> path.join(other) == other,
        !other.absolute && (path.absolute || path.components.len() > 0) ==> path.join(other) == (
        PathModel {
            absolute: path.absolute,
            components: path.components + if other.components.len() > 0 && other.components[0]
                == seq![DOT] {
                other.components.skip(1)
            } else {
                other.components
            },
        }),
{
    assert(path.join(other).components =~= if other.absolute || (!path.absolute
        && path.components.len() == 0) {
        other.components
    } else {
        path.components + if other.components.len() > 0 && other.components[0] == seq![DOT] {
            other.components.skip(1)
        } else {
            other.components
        }
    });
}

/// The parent and the last component make up a path; the last component is a file name unless it
/// is `.` or `..`. A path without components has neither.
pub proof fn law_parent_and_name(path: PathModel, parents: Seq<Seq<u8>>, last: Seq<u8>)
    requires
        path.components == parents.push(last),
    ensures
        path.parent() == Some(PathModel { absolute: path.absolute, components: parents }),
        path.file_name() == if last == seq![DOT] || last == seq![DOT, DOT] {
            None
        } else {
            Some(last)
        },
        (PathModel { absolute: path.absolute, components: Seq::empty() }).parent() is None,
        (PathModel { absolute: path.absolute, components: Seq::empty() }).file_name() is None,
{
    assert(path.components.drop_last() =~= parents);
}

/// Giving a path an extension changes what follows the last dot of its file name, if anything
/// stands before that dot.
pub proof fn law_extension_is_replaced(
    absolute: bool,
    parents: Seq<Seq<u8>>,
    stem: Seq<u8>,
    old: Seq<u8>,
    extension: Seq<u8>,
)
    requires
        stem.len() > 0,
        !old.contains(DOT),
        stem.push(DOT) + old != seq![DOT, DOT],
    ensures
        ({
            let path = PathModel { absolute, components: parents.push(stem.push(DOT) + old) };
            &&& path.with_extension(extension) == PathModel {
                absolute,
                components: parents.push(stem.push(DOT) + extension),
            }
            &&& path.has_extension(extension) <==> extension == old
        }),
{
    let name = stem.push(DOT) + old;
    let path = PathModel { absolute, components: parents.push(name) };
    lemma_last_dot(stem, old);
    assert(name.len() > 1);
    assert(name.take(stem.len() as int) =~= stem);
    assert(name.skip(stem.len() as int + 1) =~= old);
    assert(path.components.drop_last() =~= parents);
}

/// Giving a path an extension appends it to a file name that has none: one without a dot, or one
/// whose only dot is its first byte.
pub proof fn law_extension_is_added(
    absolute: bool,
    parents: Seq<Seq<u8>>,
    hidden: bool,
    rest: Seq<u8>,
    extension: Seq<u8>,
)
    requires
        rest.len() > 0,
        !rest.contains(DOT),
    ensures
        ({
            let name = if hidden {
                seq![DOT] + rest
            } else {
                rest
            };
            let path = PathModel { absolute, components: parents.push(name) };
            &&& path.with_extension(extension) == PathModel {
                absolute,
                components: parents.push(name.push(DOT) + extension),
            }
            &&& !path.has_extension(extension)
        }),
{
    let name = if hidden {
        seq![DOT] + rest
    } else {
        rest
    };
    let path = PathModel { absolute, components: parents.push(name) };
    let none = Seq::<u8>::empty();
    assert(rest.contains(rest[0]));
    if hidden {
        lemma_last_dot(none, rest);
        assert(none.push(DOT) + rest =~= name);
        assert(name[1] == rest[0]);
    } else {
        lemma_dotless(rest);
        assert(name[0] == rest[0]);
    }
    assert(path.components.drop_last() =~= parents);
}

/// A path without a file name stays as it is when it is given an extension.
pub proof fn law_extension_needs_a_name(path: PathModel, extension: Seq<u8>)
    requires
        path.components.len() == 0 || path.components.last() == seq![DOT]
            || path.components.last() == seq![DOT, DOT],
    ensures
        path.with_extension(extension) == path,
        !path.has_extension(extension),
{
}

/// Stripping a prefix is the opposite of appending to it, and nothing else has the prefix. The
/// empty path is a prefix of every path.
pub proof fn law_prefix_is_stripped(path: PathModel, base: PathModel, rest: Seq<Seq<u8>>)
    ensures
        base.absolute || base.components.len() > 0 ==> (PathModel {
            absolute: base.absolute,
            components: base.components + rest,
        }).strip_prefix(base) == Some(PathModel { absolute: false, components: rest }),
        base.absolute || base.components.len() > 0 ==> (path.strip_prefix(base) matches Some(found)
            ==> path.absolute == base.absolute && path.components == base.components
            + found.components && !found.absolute),
        !base.absolute && base.components.len() == 0 ==> path.strip_prefix(base) == Some(path),
{
    let whole = base.components + rest;
    assert(whole.take(base.components.len() as int) =~= base.components);
    assert(base.components.is_prefix_of(whole));
    assert(whole.skip(base.components.len() as int) =~= rest);
    if path.strip_prefix(base) is Some && (base.absolute || base.components.len() > 0) {
        let found = path.strip_prefix(base).unwrap();
        assert(base.components =~= path.components.take(base.components.len() as int));
        assert(path.components =~= base.components + found.components);
    }
}

/// The views of lists are the views of what stands in them, one for one.
pub proof fn law_views_are_one_for_one(paths: Seq<FilePath>, strings: Seq<Vec<u8>>, i: int)
    ensures
        path_views(paths).len() == paths.len(),
        0 <= i < paths.len() ==> path_views(paths)[i] == paths[i]@,
        byte_strings(strings).len() == strings.len(),
        0 <= i < strings.len() ==> byte_strings(strings)[i] == strings[i]@,
{
}

} // verus!
