//! M3U and M3U8 files.

use vstd::prelude::*;

use crate::text;

verus! {

/// A line of a playlist file that names a track.
#[derive(Debug)]
pub struct M3uEntry {
    /// The number of the line, counted from one.
    pub line: usize,
    /// The line, trimmed.
    pub text: String,
}

/// The bytes without the byte order mark that some editors put first.
pub open spec fn without_mark(bytes: Seq<u8>) -> Seq<u8> {
    if bytes.len() >= 3 && bytes[0] == 0xef && bytes[1] == 0xbb && bytes[2] == 0xbf {
        bytes.skip(3)
    } else {
        bytes
    }
}

/// Where the line that holds `from` ends: at the next line feed, or at the end.
pub open spec fn line_end(contents: Seq<char>, from: int) -> int
    decreases contents.len() - from,
{
    if from >= contents.len() || contents[from] == '\n' {
        from
    } else {
        line_end(contents, from + 1)
    }
}

/// Whether a trimmed line names a track: it is neither empty nor a comment.
pub open spec fn names_track(line: Seq<char>) -> bool {
    line.len() > 0 && line[0] != '#'
}

/// The lines from `from` on that name a track, each with its number, where the
/// first of them has the number `line`.
pub open spec fn entries_from(contents: Seq<char>, from: int, line: nat) -> Seq<(nat, Seq<char>)>
    decreases contents.len() + 1 - from,
    when 0 <= from
    via entries_from_ends
{
    if from >= contents.len() {
        Seq::empty()
    } else {
        let end = line_end(contents, from);
        let trimmed = text::trimmed(contents.subrange(from, end));
        let rest = entries_from(contents, end + 1, line + 1);
        if names_track(trimmed) {
            seq![(line, trimmed)] + rest
        } else {
            rest
        }
    }
}

#[via_fn]
proof fn entries_from_ends(contents: Seq<char>, from: int, line: nat) {
    if from < contents.len() {
        lemma_line_end(contents, from);
    }
}

pub(crate) proof fn lemma_line_end(contents: Seq<char>, from: int)
    requires
        0 <= from <= contents.len(),
    ensures
        from <= line_end(contents, from) <= contents.len(),
    decreases contents.len() - from,
{
    if from < contents.len() && contents[from] != '\n' {
        lemma_line_end(contents, from + 1);
    }
}

/// The tracks that a playlist file names; none where it is not UTF-8.
pub open spec fn entries_of(bytes: Seq<u8>) -> Option<Seq<(nat, Seq<char>)>> {
    if vstd::utf8::valid_utf8(without_mark(bytes)) {
        Some(entries_from(vstd::utf8::decode_utf8(without_mark(bytes)), 0, 1))
    } else {
        None
    }
}

/// The entries, as contracts speak of them.
pub open spec fn listed(entries: Seq<M3uEntry>) -> Seq<(nat, Seq<char>)> {
    entries.map_values(|entry: M3uEntry| (entry.line as nat, entry.text@))
}

/// Reads the lines of a playlist file that name a track, or says why the file is
/// not UTF-8.
pub fn m3u_entries(bytes: &[u8]) -> (entries: Result<Vec<M3uEntry>, String>)
    ensures
        entries matches Ok(e) ==> entries_of(bytes@) == Some(listed(e@)),
        entries matches Err(cause) ==> entries_of(bytes@) is None && cause@
            == text::decoding_fault(without_mark(bytes@)),
{
    let plain: &[u8] = if bytes.len() >= 3 && bytes[0] == 0xef && bytes[1] == 0xbb && bytes[2]
        == 0xbf {
        vstd::slice::slice_subrange(bytes, 3, bytes.len())
    } else {
        bytes
    };
    assert(plain@ =~= without_mark(bytes@));
    let contents = match text::utf8_text(plain) {
        Ok(contents) => contents,
        Err(cause) => return Err(cause),
    };
    let chars = text::chars_of(contents.as_str());
    let ghost all = entries_from(chars@, 0, 1);
    let mut entries: Vec<M3uEntry> = Vec::new();
    let mut from: usize = 0;
    let mut line: usize = 1;
    assert(listed(entries@) + all =~= all);
    while from < chars.len()
        invariant
            from <= chars@.len(),
            from < chars@.len() ==> line <= from + 1,
            all == listed(entries@) + entries_from(chars@, from as int, line as nat),
        decreases chars@.len() - from,
    {
        let mut end: usize = from;
        while end < chars.len() && chars[end] != '\n'
            invariant
                from <= end <= chars@.len(),
                line_end(chars@, from as int) == line_end(chars@, end as int),
            decreases chars@.len() - end,
        {
            end += 1;
        }
        let (lo, hi) = text::trim_range(&chars, from, end);
        let ghost trimmed = text::trimmed(chars@.subrange(from as int, end as int));
        let ghost rest = entries_from(chars@, end + 1, (line + 1) as nat);
        let ghost before = listed(entries@);
        if lo < hi && chars[lo] != '#' {
            let entry = M3uEntry { line, text: text::substring(&chars, lo, hi) };
            assert(names_track(trimmed));
            entries.push(entry);
            assert(listed(entries@) =~= before.push((line as nat, trimmed)));
            assert(all =~= listed(entries@) + rest);
        } else {
            assert(!names_track(trimmed));
        }
        assert(all == listed(entries@) + rest);
        if chars.len() - end > 1 {
            from = end + 1;
            line += 1;
        } else {
            from = chars.len();
            assert(rest =~= Seq::empty());
            assert(entries_from(chars@, from as int, line as nat) =~= Seq::empty());
        }
    }
    assert(all =~= listed(entries@));
    Ok(entries)
}

} // verus!
