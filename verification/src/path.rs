//! Files named by their paths: which of them matter, and in what order.

use vstd::prelude::*;

use crate::text;

verus! {

/// A path, taken apart at its separators.
///
/// The paths of files are canonical: they begin at the root, or on a system with
/// drives at a drive and its root, and hold neither `.` nor `..`. Two such paths
/// name the same file where their components are the same.
#[derive(Debug)]
pub struct FilePath {
    /// The components, each as the bytes that the operating system gives for it;
    /// the root is `/` on every system.
    pub components: Vec<Vec<u8>>,
    /// The path as it is shown.
    pub shown: String,
}

impl Clone for FilePath {
    fn clone(&self) -> (copy: FilePath)
        ensures
            copy.parts() == self.parts(),
            copy.shown == self.shown,
    {
        let mut components: Vec<Vec<u8>> = Vec::new();
        let mut i: usize = 0;
        while i < self.components.len()
            invariant
                i <= self.components@.len(),
                components@.len() == i,
                forall|j: int| 0 <= j < i ==> components@[j]@ == self.components@[j]@,
            decreases self.components@.len() - i,
        {
            components.push(vstd::slice::slice_to_vec(self.components[i].as_slice()));
            i += 1;
        }
        let copy = FilePath { components, shown: self.shown.clone() };
        assert(copy.parts() =~= self.parts());
        copy
    }
}

/// The components as sequences of bytes.
pub open spec fn bytes_of(components: Seq<Vec<u8>>) -> Seq<Seq<u8>> {
    components.map_values(|part: Vec<u8>| part@)
}

/// Where the last `.` of a file name stands, or -1.
pub open spec fn last_dot(name: Seq<u8>) -> int
    decreases name.len(),
{
    if name.len() == 0 || name.last() == 46 {
        name.len() - 1
    } else {
        last_dot(name.drop_last())
    }
}

/// The part of a file name after its last `.`, where something stands before
/// that dot.
pub open spec fn extension_of(name: Seq<u8>) -> Option<Seq<u8>> {
    if last_dot(name) > 0 {
        Some(name.skip(last_dot(name) + 1))
    } else {
        None
    }
}

/// The file name without its extension and the dot before it.
pub open spec fn stem_of(name: Seq<u8>) -> Seq<u8> {
    if last_dot(name) > 0 {
        name.take(last_dot(name))
    } else {
        name
    }
}

/// A component that names no file: the root, or one of the two dotted names.
pub open spec fn is_special(part: Seq<u8>) -> bool {
    part == seq![47u8] || part == seq![46u8] || part == seq![46u8, 46u8]
}

/// Whether an extension is `wanted`, a text in small letters, in any mix of
/// capital and small letters.
pub open spec fn same_extension(extension: Seq<u8>, wanted: Seq<char>) -> bool {
    &&& extension.len() == wanted.len()
    &&& forall|i: int|
        0 <= i < wanted.len() ==> text::ascii_lower(#[trigger] extension[i] as char) == wanted[i]
}

/// The order of byte strings: by the first byte that differs.
pub open spec fn bytes_before(a: Seq<u8>, b: Seq<u8>) -> bool
    decreases a.len(),
{
    if b.len() == 0 {
        false
    } else if a.len() == 0 {
        true
    } else if a[0] != b[0] {
        a[0] < b[0]
    } else {
        bytes_before(a.drop_first(), b.drop_first())
    }
}

/// The order of paths: by the first component that differs.
pub open spec fn parts_before(a: Seq<Seq<u8>>, b: Seq<Seq<u8>>) -> bool
    decreases a.len(),
{
    if b.len() == 0 {
        false
    } else if a.len() == 0 {
        true
    } else if a[0] != b[0] {
        bytes_before(a[0], b[0])
    } else {
        parts_before(a.drop_first(), b.drop_first())
    }
}

impl FilePath {
    /// The components as sequences of bytes.
    pub open spec fn parts(self) -> Seq<Seq<u8>> {
        bytes_of(self.components@)
    }

    /// The name of the file: the last component, unless it is the root or one
    /// of the dotted names.
    pub open spec fn name(self) -> Option<Seq<u8>> {
        if self.parts().len() > 0 && !is_special(self.parts().last()) {
            Some(self.parts().last())
        } else {
            None
        }
    }

    /// Whether the file has this extension, given in small letters.
    pub open spec fn has_extension(self, wanted: Seq<char>) -> bool {
        self.name() matches Some(name) && extension_of(name) matches Some(extension)
            && same_extension(extension, wanted)
    }

    /// The file's name without its extension, where that is valid UTF-8.
    pub open spec fn stem(self) -> Option<Seq<char>> {
        match self.name() {
            Some(name) => if vstd::utf8::valid_utf8(stem_of(name)) {
                Some(vstd::utf8::decode_utf8(stem_of(name)))
            } else {
                None
            },
            None => None,
        }
    }
}

fn find_last_dot(name: &Vec<u8>) -> (at: Option<usize>)
    ensures
        at matches Some(i) ==> i < name@.len() && last_dot(name@) == i,
        at is None ==> last_dot(name@) == -1,
{
    let mut n: usize = name.len();
    assert(name@.take(n as int) =~= name@);
    while n > 0
        invariant
            n <= name@.len(),
            last_dot(name@) == last_dot(name@.take(n as int)),
        decreases n,
    {
        if name[n - 1] == 46 {
            return Some(n - 1);
        }
        assert(name@.take(n as int).drop_last() =~= name@.take(n - 1));
        n -= 1;
    }
    None
}

fn part_is(part: &Vec<u8>, first: u8, second: Option<u8>) -> (same: bool)
    ensures
        same == (part@ == match second {
            Some(b) => seq![first, b],
            None => seq![first],
        }),
{
    let same = match second {
        Some(b) => part.len() == 2 && part[0] == first && part[1] == b,
        None => part.len() == 1 && part[0] == first,
    };
    assert(same ==> part@ =~= match second {
        Some(b) => seq![first, b],
        None => seq![first],
    });
    same
}

impl FilePath {
    /// The name of the file.
    pub fn file_name(&self) -> (name: Option<&Vec<u8>>)
        ensures
            name matches Some(n) ==> self.name() == Some(n@),
            name is None ==> self.name() is None,
    {
        if self.components.len() == 0 {
            return None;
        }
        let last = &self.components[self.components.len() - 1];
        assert(self.parts().last() == last@);
        if part_is(last, 47, None) || part_is(last, 46, None) || part_is(last, 46, Some(46)) {
            None
        } else {
            Some(last)
        }
    }

    /// The file's name without its extension, where that is valid UTF-8.
    pub fn file_stem(&self) -> (stem: Option<String>)
        ensures
            stem matches Some(s) ==> self.stem() == Some(s@),
            stem is None ==> self.stem() is None,
    {
        match self.file_name() {
            Some(name) => {
                let end: usize = match find_last_dot(name) {
                    Some(i) => if i > 0 {
                        i
                    } else {
                        name.len()
                    },
                    None => name.len(),
                };
                assert(name@.take(name@.len() as int) =~= name@);
                let part = vstd::slice::slice_subrange(name.as_slice(), 0, end);
                assert(part@ =~= stem_of(name@));
                match text::utf8_text(part) {
                    Ok(stem) => Some(stem),
                    Err(_) => None,
                }
            },
            None => None,
        }
    }

    fn extension_is(&self, wanted: &str) -> (same: bool)
        ensures
            same == self.has_extension(wanted@),
    {
        let name = match self.file_name() {
            Some(name) => name,
            None => return false,
        };
        let dot: usize = match find_last_dot(name) {
            Some(i) => i,
            None => return false,
        };
        if dot == 0 {
            return false;
        }
        let letters = text::chars_of(wanted);
        let ghost extension = name@.skip(dot + 1);
        assert(extension_of(name@) == Some(extension));
        let total: usize = name.len();
        if total - dot - 1 != letters.len() {
            return false;
        }
        let mut i: usize = 0;
        while i < letters.len()
            invariant
                letters@ == wanted@,
                total == name@.len(),
                dot < total,
                extension == name@.skip(dot + 1),
                extension.len() == letters@.len(),
                i <= letters@.len(),
                forall|j: int|
                    0 <= j < i ==> text::ascii_lower(#[trigger] extension[j] as char)
                        == wanted@[j],
                self.name() == Some(name@),
                extension_of(name@) == Some(extension),
            decreases letters@.len() - i,
        {
            let b: u8 = name[dot + 1 + i];
            assert(b == extension[i as int]);
            let small: u8 = if 65 <= b && b <= 90 {
                b + 32
            } else {
                b
            };
            assert(text::ascii_lower(b as char) == small as char);
            if small as char != letters[i] {
                return false;
            }
            i += 1;
        }
        true
    }
}

/// Whether a path is on a drive: something stands before its root.
pub open spec fn has_drive(parts: Seq<Seq<u8>>) -> bool {
    parts.len() > 1 && parts[0] != seq![47u8] && parts[1] == seq![47u8]
}

/// Whether a byte separates the pieces of a written path. Where there are drives,
/// `\` does so too.
pub open spec fn is_separator(byte: u8, drives: bool) -> bool {
    byte == 47 || (drives && byte == 92)
}

/// Where the first separator of a written path stands, or its length.
pub open spec fn piece_len(written: Seq<u8>, drives: bool) -> nat
    decreases written.len(),
{
    if written.len() == 0 || is_separator(written[0], drives) {
        0
    } else {
        1 + piece_len(written.drop_first(), drives)
    }
}

/// The pieces of a written path between its separators, but for empty ones and
/// those that are `.`: they lead nowhere.
pub open spec fn pieces(written: Seq<u8>, drives: bool) -> Seq<Seq<u8>>
    decreases written.len(),
{
    let n = piece_len(written, drives) as int;
    if 0 <= n <= written.len() && written.len() > 0 {
        let piece = written.take(n);
        let rest = if n < written.len() {
            pieces(written.skip(n + 1), drives)
        } else {
            Seq::empty()
        };
        if piece.len() == 0 || piece == seq![46u8] {
            rest
        } else {
            seq![piece] + rest
        }
    } else {
        Seq::empty()
    }
}

/// The directory that a file is in; `.` where its path has no directory.
pub open spec fn directory_of(parts: Seq<Seq<u8>>) -> Seq<Seq<u8>> {
    if parts.len() == 0 || parts.last() == seq![47u8] {
        seq![seq![46u8]]
    } else {
        parts.drop_last()
    }
}

/// The root that a path begins at, with the drive before it where there is one.
pub open spec fn root_of(parts: Seq<Seq<u8>>) -> Seq<Seq<u8>> {
    if has_drive(parts) {
        parts.take(2)
    } else {
        seq![seq![47u8]]
    }
}

/// Whether a written path names its own drive, by a letter and a colon or by two
/// separators before the name of a machine.
pub open spec fn names_drive(written: Seq<u8>) -> bool {
    &&& written.len() > 1
    &&& {
        ||| (65 <= written[0] <= 90 || 97 <= written[0] <= 122) && written[1] == 58
        ||| is_separator(written[0], true) && is_separator(written[1], true)
    }
}

/// The path that a written path stands for in a file. One that begins with a
/// separator begins at the root of the file's own path, any other in the
/// directory that the file is in. Where there are drives, one that names its own
/// drive is left as it is.
pub open spec fn written_parts(file: Seq<Seq<u8>>, written: Seq<u8>) -> Seq<Seq<u8>> {
    let drives = has_drive(file);
    if drives && names_drive(written) {
        seq![written]
    } else if written.len() > 0 && is_separator(written[0], drives) {
        root_of(file) + pieces(written, drives)
    } else {
        directory_of(file) + pieces(written, drives)
    }
}

/// Whether a written path can lead to nothing but a directory: it ends in `/`, or
/// in a `.` after one.
pub open spec fn asks_for_directory(written: Seq<u8>) -> bool {
    let n = written.len() as int;
    ||| n > 0 && written[n - 1] == 47
    ||| n > 1 && written[n - 1] == 46 && written[n - 2] == 47
}

/// The path to follow for a written path in a file. A last `.` keeps it from
/// leading to anything but a directory where it asks for one; where there are
/// drives, how a written path ends makes no difference.
pub open spec fn followed_parts(file: Seq<Seq<u8>>, written: Seq<u8>) -> Seq<Seq<u8>> {
    if !has_drive(file) && asks_for_directory(written) {
        written_parts(file, written).push(seq![46u8])
    } else {
        written_parts(file, written)
    }
}

fn separates(byte: u8, drives: bool) -> (separates: bool)
    ensures
        separates == is_separator(byte, drives),
{
    byte == 47 || (drives && byte == 92)
}

fn own_drive(bytes: &[u8]) -> (own: bool)
    ensures
        own == names_drive(bytes@),
{
    bytes.len() > 1 && (((65 <= bytes[0] && bytes[0] <= 90) || (97 <= bytes[0] && bytes[0] <= 122))
        && bytes[1] == 58 || separates(bytes[0], true) && separates(bytes[1], true))
}

fn copy_bytes(bytes: &[u8], from: usize, to: usize) -> (copy: Vec<u8>)
    requires
        from <= to <= bytes@.len(),
    ensures
        copy@ == bytes@.subrange(from as int, to as int),
{
    vstd::slice::slice_to_vec(vstd::slice::slice_subrange(bytes, from, to))
}

/// Copies the first components of a path.
fn copy_parts(components: &Vec<Vec<u8>>, count: usize) -> (parts: Vec<Vec<u8>>)
    requires
        count <= components@.len(),
    ensures
        bytes_of(parts@) == bytes_of(components@).take(count as int),
{
    let ghost all = bytes_of(components@);
    let mut parts: Vec<Vec<u8>> = Vec::new();
    assert(bytes_of(parts@) =~= all.take(0));
    let mut i: usize = 0;
    while i < count
        invariant
            count <= components@.len(),
            i <= count,
            all == bytes_of(components@),
            bytes_of(parts@) == all.take(i as int),
        decreases count - i,
    {
        let part = &components[i];
        let copy = copy_bytes(part.as_slice(), 0, part.len());
        let ghost before = bytes_of(parts@);
        assert(copy@ =~= all[i as int]);
        parts.push(copy);
        assert(bytes_of(parts@) =~= before.push(copy@));
        i += 1;
        assert(all.take(i as int) =~= before.push(copy@));
    }
    parts
}

fn one_part(part: Vec<u8>) -> (parts: Vec<Vec<u8>>)
    ensures
        bytes_of(parts@) == seq![part@],
{
    let mut parts: Vec<Vec<u8>> = Vec::new();
    parts.push(part);
    assert(bytes_of(parts@) =~= seq![part@]);
    parts
}

fn one_byte(byte: u8) -> (part: Vec<u8>)
    ensures
        part@ == seq![byte],
{
    let mut part: Vec<u8> = Vec::new();
    part.push(byte);
    assert(part@ =~= seq![byte]);
    part
}

impl FilePath {
    fn is_on_drive(&self) -> (drive: bool)
        ensures
            drive == has_drive(self.parts()),
    {
        self.components.len() > 1 && !part_is(&self.components[0], 47, None) && part_is(
            &self.components[1],
            47,
            None,
        )
    }

    /// The components of the path that a written path stands for in this file.
    pub fn written_path(&self, written: &str) -> (parts: Vec<Vec<u8>>)
        ensures
            bytes_of(parts@) == written_parts(
                self.parts(),
                vstd::utf8::encode_utf8(written@),
            ),
    {
        let bytes: &[u8] = written.as_bytes();
        let ghost whole = bytes@;
        let drives = self.is_on_drive();
        if drives && own_drive(bytes) {
            let copy = copy_bytes(bytes, 0, bytes.len());
            assert(copy@ =~= whole);
            return one_part(copy);
        }
        let mut parts: Vec<Vec<u8>> = if bytes.len() > 0 && separates(bytes[0], drives) {
            if drives {
                copy_parts(&self.components, 2)
            } else {
                one_part(one_byte(47))
            }
        } else if self.components.len() == 0 || part_is(
            &self.components[self.components.len() - 1],
            47,
            None,
        ) {
            one_part(one_byte(46))
        } else {
            let parts = copy_parts(&self.components, self.components.len() - 1);
            assert(bytes_of(parts@) =~= self.parts().drop_last());
            parts
        };
        let ghost start = bytes_of(parts@);
        let mut from: usize = 0;
        assert(whole.skip(0) =~= whole);
        while from < bytes.len()
            invariant
                bytes@ == whole,
                from <= whole.len(),
                start + pieces(whole, drives) == bytes_of(parts@) + pieces(whole.skip(from as int), drives),
            decreases whole.len() - from,
        {
            let ghost rest = whole.skip(from as int);
            let ghost before = bytes_of(parts@);
            let mut end: usize = from;
            while end < bytes.len() && !separates(bytes[end], drives)
                invariant
                    bytes@ == whole,
                    from <= end <= whole.len(),
                    rest == whole.skip(from as int),
                    piece_len(rest, drives) == (end - from) + piece_len(whole.skip(end as int), drives),
                decreases whole.len() - end,
            {
                assert(whole.skip(end as int).drop_first() =~= whole.skip(end + 1));
                end += 1;
            }
            let ghost piece = rest.take(end - from);
            assert(piece =~= whole.subrange(from as int, end as int));
            let ghost later = if end < whole.len() {
                pieces(whole.skip(end + 1), drives)
            } else {
                Seq::empty()
            };
            proof {
                assert(piece_len(rest, drives) == end - from);
                if end < whole.len() {
                    assert(rest.skip(end - from + 1) =~= whole.skip(end + 1));
                }
            }
            if end == from || (end - from == 1 && bytes[from] == 46) {
                assert(piece.len() == 0 || piece =~= seq![46u8]);
                assert(pieces(rest, drives) =~= later);
            } else {
                let copy = copy_bytes(bytes, from, end);
                assert(copy@ == piece);
                assert(piece != seq![46u8]) by {
                    if piece == seq![46u8] {
                        assert(piece[0] == whole[from as int]);
                    }
                }
                parts.push(copy);
                assert(pieces(rest, drives) =~= seq![piece] + later);
                assert(bytes_of(parts@) =~= before.push(piece));
                assert(before + (seq![piece] + later) =~= bytes_of(parts@) + later);
            }
            if end < bytes.len() {
                from = end + 1;
            } else {
                from = end;
                assert(pieces(whole.skip(from as int), drives) =~= later);
            }
        }
        assert(bytes_of(parts@) + pieces(whole.skip(from as int), drives) =~= bytes_of(parts@));
        parts
    }

    /// The components of the path to follow for a written path in this file.
    pub fn followed_path(&self, written: &str) -> (parts: Vec<Vec<u8>>)
        ensures
            bytes_of(parts@) == followed_parts(
                self.parts(),
                vstd::utf8::encode_utf8(written@),
            ),
    {
        let bytes: &[u8] = written.as_bytes();
        let mut parts = self.written_path(written);
        let n: usize = bytes.len();
        let directory = (n > 0 && bytes[n - 1] == 47) || (n > 1 && bytes[n - 1] == 46 && bytes[n - 2]
            == 47);
        if directory && !self.is_on_drive() {
            let ghost before = bytes_of(parts@);
            let here = one_byte(46);
            parts.push(here);
            assert(bytes_of(parts@) =~= before.push(here@));
        }
        parts
    }
}

/// Whether the path ends in `.mp3`, in any mix of capital and small letters.
pub fn is_mp3(path: &FilePath) -> (mp3: bool)
    ensures
        mp3 == path.has_extension("mp3"@),
{
    path.extension_is("mp3")
}

/// Whether the path ends in `.m3u` or `.m3u8`, in any mix of capital and small
/// letters.
pub fn is_m3u(path: &FilePath) -> (m3u: bool)
    ensures
        m3u == (path.has_extension("m3u"@) || path.has_extension("m3u8"@)),
{
    path.extension_is("m3u") || path.extension_is("m3u8")
}

/// The extensions of audio files that cannot be synchronized.
pub open spec fn unsupported_extensions() -> Seq<Seq<char>> {
    seq![
        "aac"@,
        "aif"@,
        "aiff"@,
        "alac"@,
        "flac"@,
        "m4a"@,
        "ogg"@,
        "opus"@,
        "wav"@,
        "wma"@,
    ]
}

/// Whether the path names an audio file of a kind that is left out.
pub fn is_unsupported_audio(path: &FilePath) -> (unsupported: bool)
    ensures
        unsupported == exists|i: int|
            0 <= i < unsupported_extensions().len() && path.has_extension(
                #[trigger] unsupported_extensions()[i],
            ),
{
    let unsupported = path.extension_is("aac") || path.extension_is("aif") || path.extension_is(
        "aiff",
    ) || path.extension_is("alac") || path.extension_is("flac") || path.extension_is("m4a")
        || path.extension_is("ogg") || path.extension_is("opus") || path.extension_is("wav")
        || path.extension_is("wma");
    proof {
        let all = unsupported_extensions();
        assert(all[0] == "aac"@ && all[1] == "aif"@ && all[2] == "aiff"@ && all[3] == "alac"@
            && all[4] == "flac"@ && all[5] == "m4a"@ && all[6] == "ogg"@ && all[7] == "opus"@
            && all[8] == "wav"@ && all[9] == "wma"@);
    }
    unsupported
}

proof fn lemma_bytes_order(a: Seq<u8>, b: Seq<u8>)
    ensures
        !(bytes_before(a, b) && bytes_before(b, a)),
        bytes_before(a, b) || bytes_before(b, a) || a == b,
        bytes_before(a, b) ==> a != b,
    decreases a.len(),
{
    if a.len() > 0 && b.len() > 0 {
        if a[0] == b[0] {
            lemma_bytes_order(a.drop_first(), b.drop_first());
            if a.drop_first() == b.drop_first() {
                assert(a =~= seq![a[0]] + a.drop_first());
                assert(b =~= seq![b[0]] + b.drop_first());
            }
        }
    } else if a.len() == 0 && b.len() == 0 {
        assert(a =~= b);
    }
}

proof fn lemma_bytes_transitive(a: Seq<u8>, b: Seq<u8>, c: Seq<u8>)
    requires
        bytes_before(a, b),
        bytes_before(b, c),
    ensures
        bytes_before(a, c),
    decreases a.len(),
{
    if a.len() > 0 && a[0] == b[0] && b[0] == c[0] {
        lemma_bytes_transitive(a.drop_first(), b.drop_first(), c.drop_first());
    }
}

/// Two paths are the same, or exactly one of them stands before the other.
pub proof fn law_paths_are_ordered(a: Seq<Seq<u8>>, b: Seq<Seq<u8>>)
    ensures
        !(parts_before(a, b) && parts_before(b, a)),
        parts_before(a, b) || parts_before(b, a) || a == b,
        parts_before(a, b) ==> a != b,
    decreases a.len(),
{
    if a.len() > 0 && b.len() > 0 {
        lemma_bytes_order(a[0], b[0]);
        if a[0] == b[0] {
            law_paths_are_ordered(a.drop_first(), b.drop_first());
            if a.drop_first() == b.drop_first() {
                assert(a =~= seq![a[0]] + a.drop_first());
                assert(b =~= seq![b[0]] + b.drop_first());
            }
        }
    } else if a.len() == 0 && b.len() == 0 {
        assert(a =~= b);
    }
}

/// A path before a second, which is before a third, is before the third.
pub proof fn law_path_order_is_transitive(a: Seq<Seq<u8>>, b: Seq<Seq<u8>>, c: Seq<Seq<u8>>)
    requires
        parts_before(a, b),
        parts_before(b, c),
    ensures
        parts_before(a, c),
    decreases a.len(),
{
    if a.len() > 0 {
        lemma_bytes_order(a[0], b[0]);
        lemma_bytes_order(b[0], c[0]);
        if a[0] == b[0] && b[0] == c[0] {
            law_path_order_is_transitive(a.drop_first(), b.drop_first(), c.drop_first());
        } else if a[0] != b[0] && b[0] != c[0] {
            lemma_bytes_transitive(a[0], b[0], c[0]);
            lemma_bytes_order(a[0], c[0]);
        }
    }
}

fn bytes_less(a: &Vec<u8>, b: &Vec<u8>) -> (less: bool)
    ensures
        less == bytes_before(a@, b@),
{
    let mut i: usize = 0;
    assert(a@.skip(0) =~= a@);
    assert(b@.skip(0) =~= b@);
    while i < a.len() && i < b.len()
        invariant
            i <= a@.len(),
            i <= b@.len(),
            bytes_before(a@, b@) == bytes_before(a@.skip(i as int), b@.skip(i as int)),
        decreases a@.len() - i,
    {
        if a[i] != b[i] {
            return a[i] < b[i];
        }
        assert(a@.skip(i as int).drop_first() =~= a@.skip(i + 1));
        assert(b@.skip(i as int).drop_first() =~= b@.skip(i + 1));
        i += 1;
    }
    i < b.len()
}

fn same_bytes(a: &Vec<u8>, b: &Vec<u8>) -> (same: bool)
    ensures
        same == (a@ == b@),
{
    if a.len() != b.len() {
        return false;
    }
    let mut i: usize = 0;
    while i < a.len()
        invariant
            a@.len() == b@.len(),
            i <= a@.len(),
            forall|j: int| 0 <= j < i ==> a@[j] == b@[j],
        decreases a@.len() - i,
    {
        if a[i] != b[i] {
            return false;
        }
        i += 1;
    }
    assert(a@ =~= b@);
    true
}

impl FilePath {
    /// Whether this path stands before the other.
    pub fn before(&self, other: &FilePath) -> (less: bool)
        ensures
            less == parts_before(self.parts(), other.parts()),
    {
        let a = &self.components;
        let b = &other.components;
        let ghost x = self.parts();
        let ghost y = other.parts();
        let mut i: usize = 0;
        assert(x.skip(0) =~= x);
        assert(y.skip(0) =~= y);
        while i < a.len() && i < b.len()
            invariant
                a@ == self.components@,
                b@ == other.components@,
                x == self.parts(),
                y == other.parts(),
                i <= x.len(),
                i <= y.len(),
                parts_before(x, y) == parts_before(x.skip(i as int), y.skip(i as int)),
            decreases x.len() - i,
        {
            assert(x.skip(i as int)[0] == a@[i as int]@);
            assert(y.skip(i as int)[0] == b@[i as int]@);
            if !same_bytes(&a[i], &b[i]) {
                return bytes_less(&a[i], &b[i]);
            }
            assert(x.skip(i as int).drop_first() =~= x.skip(i + 1));
            assert(y.skip(i as int).drop_first() =~= y.skip(i + 1));
            i += 1;
        }
        i < b.len()
    }

    /// Whether the two paths name the same file.
    pub fn same_file(&self, other: &FilePath) -> (same: bool)
        ensures
            same == (self.parts() == other.parts()),
    {
        let a = &self.components;
        let b = &other.components;
        if a.len() != b.len() {
            assert(self.parts().len() != other.parts().len());
            return false;
        }
        let mut i: usize = 0;
        while i < a.len()
            invariant
                a@ == self.components@,
                b@ == other.components@,
                a@.len() == b@.len(),
                i <= a@.len(),
                forall|j: int| 0 <= j < i ==> self.parts()[j] == other.parts()[j],
            decreases a@.len() - i,
        {
            assert(self.parts()[i as int] == a@[i as int]@);
            assert(other.parts()[i as int] == b@[i as int]@);
            if !same_bytes(&a[i], &b[i]) {
                return false;
            }
            i += 1;
        }
        assert(self.parts() =~= other.parts());
        true
    }
}

/// Whether the path at index `i` comes before the one at index `j` in sorted
/// order; of two equal paths the earlier one comes first.
pub open spec fn sorts_before(paths: Seq<FilePath>, i: int, j: int) -> bool {
    parts_before(paths[i].parts(), paths[j].parts()) || (paths[i].parts() == paths[j].parts() && i
        < j)
}

/// Indexes into `paths` in sorted order.
pub open spec fn is_ordered(paths: Seq<FilePath>, order: Seq<usize>) -> bool {
    forall|a: int, b: int|
        0 <= a < b < order.len() ==> sorts_before(
            paths,
            #[trigger] order[a] as int,
            #[trigger] order[b] as int,
        )
}

/// `order` holds each of the given indexes once, sorted.
pub open spec fn is_sorted_order(
    paths: Seq<FilePath>,
    chosen: Seq<usize>,
    order: Seq<usize>,
) -> bool {
    &&& is_ordered(paths, order)
    &&& forall|k: usize| #![auto] chosen.contains(k) <==> order.contains(k)
}

proof fn lemma_sorts_transitive(paths: Seq<FilePath>, i: int, j: int, k: int)
    requires
        sorts_before(paths, i, j),
        sorts_before(paths, j, k),
    ensures
        sorts_before(paths, i, k),
{
    let (a, b, c) = (paths[i].parts(), paths[j].parts(), paths[k].parts());
    if parts_before(a, b) && parts_before(b, c) {
        law_path_order_is_transitive(a, b, c);
    }
}

/// Merges two sorted lists of indexes, those of the first below those of the
/// second.
fn merge(paths: &Vec<FilePath>, left: &Vec<usize>, right: &Vec<usize>) -> (merged: Vec<usize>)
    requires
        is_ordered(paths@, left@),
        is_ordered(paths@, right@),
        forall|a: int| 0 <= a < left@.len() ==> #[trigger] left@[a] < paths@.len(),
        forall|b: int| 0 <= b < right@.len() ==> #[trigger] right@[b] < paths@.len(),
        forall|a: int, b: int|
            0 <= a < left@.len() && 0 <= b < right@.len() ==> #[trigger] left@[a]
                < #[trigger] right@[b],
    ensures
        is_ordered(paths@, merged@),
        merged@.len() == left@.len() + right@.len(),
        forall|k: usize| #[trigger] merged@.contains(k) <==> left@.contains(k) || right@.contains(k),
{
    let mut merged: Vec<usize> = Vec::new();
    let mut i: usize = 0;
    let mut j: usize = 0;
    while i < left.len() || j < right.len()
        invariant
            is_ordered(paths@, left@),
            is_ordered(paths@, right@),
            forall|a: int| 0 <= a < left@.len() ==> #[trigger] left@[a] < paths@.len(),
            forall|b: int| 0 <= b < right@.len() ==> #[trigger] right@[b] < paths@.len(),
            forall|a: int, b: int|
                0 <= a < left@.len() && 0 <= b < right@.len() ==> #[trigger] left@[a]
                    < #[trigger] right@[b],
            i <= left@.len(),
            j <= right@.len(),
            merged@.len() == i + j,
            is_ordered(paths@, merged@),
            forall|m: int, a: int|
                0 <= m < merged@.len() && i <= a < left@.len() ==> sorts_before(
                    paths@,
                    #[trigger] merged@[m] as int,
                    #[trigger] left@[a] as int,
                ),
            forall|m: int, b: int|
                0 <= m < merged@.len() && j <= b < right@.len() ==> sorts_before(
                    paths@,
                    #[trigger] merged@[m] as int,
                    #[trigger] right@[b] as int,
                ),
            forall|m: int|
                0 <= m < merged@.len() ==> left@.take(i as int).contains(#[trigger] merged@[m])
                    || right@.take(j as int).contains(merged@[m]),
            forall|a: int| 0 <= a < i ==> merged@.contains(#[trigger] left@[a]),
            forall|b: int| 0 <= b < j ==> merged@.contains(#[trigger] right@[b]),
        decreases left@.len() + right@.len() - i - j,
    {
        let take_right: bool = if i == left.len() {
            true
        } else if j == right.len() {
            false
        } else {
            paths[right[j]].before(&paths[left[i]])
        };
        let ghost before = merged@;
        let ghost next = if take_right {
            right@[j as int]
        } else {
            left@[i as int]
        };
        proof {
            assert(before.push(next).last() == next);
            assert forall|k: usize| before.contains(k) implies #[trigger] before.push(next).contains(k) by {
                let at = choose|at: int| 0 <= at < before.len() && before[at] == k;
                assert(before.push(next)[at] == k);
            }
            assert(before.push(next).contains(next)) by {
                assert(before.push(next)[before.len() as int] == next);
            }
            if take_right && i < left@.len() {
                assert forall|a: int| i <= a < left@.len() implies sorts_before(
                    paths@,
                    next as int,
                    #[trigger] left@[a] as int,
                ) by {
                    if a > i {
                        lemma_sorts_transitive(
                            paths@,
                            next as int,
                            left@[i as int] as int,
                            left@[a] as int,
                        );
                    }
                }
            }
            if !take_right && j < right@.len() {
                law_paths_are_ordered(
                    paths@[left@[i as int] as int].parts(),
                    paths@[right@[j as int] as int].parts(),
                );
                assert(sorts_before(paths@, next as int, right@[j as int] as int));
                assert forall|b: int| j <= b < right@.len() implies sorts_before(
                    paths@,
                    next as int,
                    #[trigger] right@[b] as int,
                ) by {
                    if b > j {
                        lemma_sorts_transitive(
                            paths@,
                            next as int,
                            right@[j as int] as int,
                            right@[b] as int,
                        );
                    }
                }
            }
            assert(left@.take(i as int).push(left@[i as int]) =~= left@.take(i + 1) || i
                == left@.len());
            assert(right@.take(j as int).push(right@[j as int]) =~= right@.take(j + 1) || j
                == right@.len());
            if i < left@.len() {
                assert(left@.take(i + 1)[i as int] == left@[i as int]);
                assert forall|k: usize| left@.take(i as int).contains(k) implies #[trigger] left@.take(
                    i + 1,
                ).contains(k) by {
                    let at = choose|at: int| 0 <= at < i && left@.take(i as int)[at] == k;
                    assert(left@.take(i + 1)[at] == k);
                }
            }
            if j < right@.len() {
                assert(right@.take(j + 1)[j as int] == right@[j as int]);
                assert forall|k: usize| right@.take(j as int).contains(k) implies #[trigger] right@.take(
                    j + 1,
                ).contains(k) by {
                    let at = choose|at: int| 0 <= at < j && right@.take(j as int)[at] == k;
                    assert(right@.take(j + 1)[at] == k);
                }
            }
        }
        if take_right {
            merged.push(right[j]);
            j += 1;
        } else {
            merged.push(left[i]);
            i += 1;
        }
    }
    assert(left@.take(i as int) =~= left@);
    assert(right@.take(j as int) =~= right@);
    assert forall|k: usize| #[trigger]
        merged@.contains(k) <==> left@.contains(k) || right@.contains(k) by {
        if merged@.contains(k) {
            let at = choose|at: int| 0 <= at < merged@.len() && merged@[at] == k;
            assert(merged@[at] == k);
        }
    }
    merged
}

/// Sorts the indexes `chosen[from..to]`.
fn sort_range(paths: &Vec<FilePath>, chosen: &Vec<usize>, from: usize, to: usize) -> (order: Vec<
    usize,
>)
    requires
        from <= to <= chosen@.len(),
        forall|a: int| 0 <= a < chosen@.len() ==> #[trigger] chosen@[a] < paths@.len(),
        forall|a: int, b: int| 0 <= a < b < chosen@.len() ==> chosen@[a] < chosen@[b],
    ensures
        is_ordered(paths@, order@),
        order@.len() == to - from,
        forall|k: usize| #[trigger]
            order@.contains(k) <==> chosen@.subrange(from as int, to as int).contains(k),
    decreases to - from,
{
    let mut order: Vec<usize> = Vec::new();
    if to - from == 0 {
        assert(order@ =~= chosen@.subrange(from as int, to as int));
        return order;
    }
    if to - from == 1 {
        order.push(chosen[from]);
        assert(order@ =~= chosen@.subrange(from as int, to as int));
        return order;
    }
    let middle: usize = from + (to - from) / 2;
    let left = sort_range(paths, chosen, from, middle);
    let right = sort_range(paths, chosen, middle, to);
    let ghost first = chosen@.subrange(from as int, middle as int);
    let ghost second = chosen@.subrange(middle as int, to as int);
    let ghost whole = chosen@.subrange(from as int, to as int);
    proof {
        assert(whole =~= first + second);
        assert forall|a: int| 0 <= a < left@.len() implies first.contains(#[trigger] left@[a]) by {
            assert(left@.contains(left@[a]));
        }
        assert forall|b: int| 0 <= b < right@.len() implies second.contains(#[trigger] right@[b]) by {
            assert(right@.contains(right@[b]));
        }
        assert forall|k: usize| #[trigger]
            whole.contains(k) <==> first.contains(k) || second.contains(k) by {
            if first.contains(k) {
                let at = choose|at: int| 0 <= at < first.len() && first[at] == k;
                assert(whole[at] == k);
            }
            if second.contains(k) {
                let at = choose|at: int| 0 <= at < second.len() && second[at] == k;
                assert(whole[at + first.len()] == k);
            }
            if whole.contains(k) {
                let at = choose|at: int| 0 <= at < whole.len() && whole[at] == k;
                if at < first.len() {
                    assert(first[at] == k);
                } else {
                    assert(second[at - first.len()] == k);
                }
            }
        }
    }
    merge(paths, &left, &right)
}

/// The indexes `chosen`, given in rising order, sorted by the paths they stand
/// for.
pub(crate) fn sort_paths(paths: &Vec<FilePath>, chosen: &Vec<usize>) -> (order: Vec<usize>)
    requires
        forall|a: int| 0 <= a < chosen@.len() ==> #[trigger] chosen@[a] < paths@.len(),
        forall|a: int, b: int| 0 <= a < b < chosen@.len() ==> chosen@[a] < chosen@[b],
    ensures
        order@.len() == chosen@.len(),
        is_sorted_order(paths@, chosen@, order@),
{
    assert(chosen@.subrange(0, chosen@.len() as int) =~= chosen@);
    sort_range(paths, chosen, 0, chosen.len())
}

} // verus!
