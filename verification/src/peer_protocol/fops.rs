//! How the torrent's bytes are laid out over its files: where a torrent
//! offset falls, and how a piece splits into per-file writes or reads.
use vstd::prelude::*;
use vstd::string::StringExecFns;

use crate::tracker_protocol::metadata::Info;

verus! {

/// The torrent offset at which file `i` starts: the lengths of the files
/// before it.
pub open spec fn file_start(lengths: Seq<u64>, i: int) -> int
    decreases i,
{
    if i <= 0 {
        0
    } else {
        file_start(lengths, i - 1) + lengths[i - 1]
    }
}

/// The total length of the files.
pub open spec fn total_spec(lengths: Seq<u64>) -> int {
    file_start(lengths, lengths.len() as int)
}

/// Where torrent offset `offset` falls, searching from file `i` on: the
/// first file that reaches past it and the offset within that file; past
/// the end, the last file and how far past its start the offset lies.
pub open spec fn locate(lengths: Seq<u64>, offset: int, i: int) -> (int, int)
    decreases lengths.len() - i,
{
    if i >= lengths.len() {
        (lengths.len() - 1, offset - total_spec(lengths) + lengths.last())
    } else if file_start(lengths, i) + lengths[i] > offset {
        (i, offset - file_start(lengths, i))
    } else {
        locate(lengths, offset, i + 1)
    }
}

/// The starts of the files grow with the index.
pub proof fn lemma_file_start_mono(lengths: Seq<u64>, i: int, j: int)
    requires
        0 <= i <= j <= lengths.len(),
    ensures
        file_start(lengths, i) <= file_start(lengths, j),
    decreases j - i,
{
    if i < j {
        lemma_file_start_mono(lengths, i, j - 1);
    }
}

/// The total length of the files; it must fit in a `u64`.
pub fn total_len(lengths: &Vec<u64>) -> (r: u64)
    requires
        total_spec(lengths@) <= u64::MAX,
    ensures
        r == total_spec(lengths@),
{
    let mut acc: u64 = 0;
    let mut i: usize = 0;
    while i < lengths.len()
        invariant
            0 <= i <= lengths@.len(),
            acc == file_start(lengths@, i as int),
            total_spec(lengths@) <= u64::MAX,
        decreases lengths@.len() - i,
    {
        proof {
            lemma_file_start_mono(lengths@, i + 1, lengths@.len() as int);
        }
        acc = acc + lengths[i];
        i = i + 1;
    }
    acc
}

/// The file that torrent offset `offset` falls in and the offset within it;
/// past the end, the last file and how far past its start the offset lies.
/// There must be at least one file.
pub fn get_relative_offset(lengths: &Vec<u64>, offset: u64) -> (r: (usize, u64))
    requires
        lengths@.len() >= 1,
        total_spec(lengths@) <= u64::MAX,
    ensures
        r.0 == locate(lengths@, offset as int, 0).0,
        r.1 == locate(lengths@, offset as int, 0).1,
{
    let mut cur_offset: u64 = 0;
    let mut i: usize = 0;
    while i < lengths.len()
        invariant
            0 <= i <= lengths@.len(),
            cur_offset == file_start(lengths@, i as int),
            total_spec(lengths@) <= u64::MAX,
            locate(lengths@, offset as int, 0) == locate(lengths@, offset as int, i as int),
            forall|k: int| 0 <= k < i ==> file_start(lengths@, k) + lengths@[k] <= offset,
        decreases lengths@.len() - i,
    {
        proof {
            lemma_file_start_mono(lengths@, i + 1, lengths@.len() as int);
        }
        let len = lengths[i];
        if cur_offset + len > offset {
            return (i, offset - cur_offset);
        } else {
            cur_offset = cur_offset + len;
        }
        i = i + 1;
    }
    let total = total_len(lengths);
    let last = lengths[lengths.len() - 1];
    proof {
        assert(offset >= total) by {
            if lengths@.len() > 0 {
                assert(file_start(lengths@, lengths@.len() - 1) + lengths@[lengths@.len() - 1] <= offset);
            }
        }
        assert(last <= total) by {
            lemma_file_start_mono(lengths@, 0, lengths@.len() - 1);
            assert(total == file_start(lengths@, lengths@.len() - 1) + last);
        }
    }
    (lengths.len() - 1, offset - total + last)
}

/// How many bytes of a `length`-byte span fit in file `file_index` from
/// `offset` on.
pub fn get_length_to_add(lengths: &Vec<u64>, file_index: usize, offset: u64, length: u32) -> (r: u32)
    requires
        file_index < lengths@.len(),
        offset <= lengths@[file_index as int],
    ensures
        r == (if lengths@[file_index as int] - offset < length {
            lengths@[file_index as int] - offset
        } else {
            length as int
        }),
{
    let rem = lengths[file_index] - offset;
    if rem < length as u64 {
        rem as u32
    } else {
        length
    }
}

/// A command for the task that writes the torrent's files: write the
/// bytes at the given torrent offset.
#[derive(Debug)]
pub enum Cmd {
    WritePiece(u64, Vec<u8>),
}

/// One per-file part of a span: bytes `start..end` of the span go to file
/// `file_index` at `offset`.
#[derive(Debug, Clone, Copy, PartialEq, Eq, Structural)]
pub struct Segment {
    pub file_index: usize,
    pub offset: u64,
    pub start: u32,
    pub end: u32,
}

/// A segment lies inside its file, at the file position that corresponds
/// to torrent offset `offset` plus its start.
pub open spec fn seg_ok(lengths: Seq<u64>, offset: int, s: Segment) -> bool {
    &&& s.file_index < lengths.len()
    &&& s.start <= s.end
    &&& s.offset + (s.end - s.start) <= lengths[s.file_index as int]
    &&& file_start(lengths, s.file_index as int) + s.offset == offset + s.start
}

/// The segments cover the span `0..length` in order, file after file, each
/// at the file position that corresponds to torrent offset `offset` plus its
/// start, and each inside its file.
pub open spec fn tiles(lengths: Seq<u64>, offset: int, length: int, segs: Seq<Segment>) -> bool {
    &&& forall|k: int| 0 <= k < segs.len() ==> #[trigger] seg_ok(lengths, offset, segs[k])
    &&& forall|k: int| 0 < k < segs.len() ==> #[trigger] segs[k].start == segs[k - 1].end
    &&& forall|k: int| 0 < k < segs.len() ==> #[trigger] segs[k].file_index == segs[k - 1].file_index + 1
    &&& segs.len() > 0 ==> segs[0].start == 0
    &&& length > 0 ==> segs.len() > 0 && segs.last().end == length
    &&& length == 0 ==> segs.len() == 0
}

/// The file found for any offset is one of the files.
proof fn lemma_locate_index(lengths: Seq<u64>, offset: int, i: int)
    requires
        0 <= i,
        lengths.len() >= 1,
    ensures
        0 <= locate(lengths, offset, i).0 < lengths.len(),
    decreases lengths.len() - i,
{
    if i < lengths.len() && file_start(lengths, i) + lengths[i] <= offset {
        lemma_locate_index(lengths, offset, i + 1);
    }
}

/// Finding the file of an offset inside the files gives that file and a
/// position inside it.
proof fn lemma_locate_inside(lengths: Seq<u64>, offset: int, i: int)
    requires
        0 <= i <= lengths.len(),
        lengths.len() >= 1,
        file_start(lengths, i) <= offset < total_spec(lengths),
    ensures
        ({
            let (f, o) = locate(lengths, offset, i);
            &&& i <= f < lengths.len()
            &&& 0 <= o < lengths[f]
            &&& file_start(lengths, f) + o == offset
        }),
    decreases lengths.len() - i,
{
    if i < lengths.len() {
        if file_start(lengths, i) + lengths[i] <= offset {
            lemma_locate_inside(lengths, offset, i + 1);
        }
    }
}

/// How a span of `length` bytes at torrent offset `offset` splits over the
/// files, file by file from the one the offset falls in. The span must lie
/// inside the files (an empty span needs only one file).
#[verifier::rlimit(60)]
pub fn file_segments(lengths: &Vec<u64>, offset: u64, length: u32) -> (r: Vec<Segment>)
    requires
        lengths@.len() >= 1,
        total_spec(lengths@) <= u64::MAX,
        length > 0 ==> offset + length <= total_spec(lengths@),
    ensures
        tiles(lengths@, offset as int, length as int, r@),
        length > 0 ==> r@[0].file_index == locate(lengths@, offset as int, 0).0 && r@[0].offset
            == locate(lengths@, offset as int, 0).1,
{
    let (first_index, first_offset) = get_relative_offset(lengths, offset);
    let mut cur_file_index = first_index;
    let mut cur_offset = first_offset;
    let mut done: u32 = 0;
    let mut segs: Vec<Segment> = Vec::new();
    let n = lengths.len();
    proof {
        lemma_locate_index(lengths@, offset as int, 0);
        if length > 0 {
            lemma_locate_inside(lengths@, offset as int, 0);
        }
    }
    while done < length
        invariant
            n == lengths@.len(),
            lengths@.len() >= 1,
            total_spec(lengths@) <= u64::MAX,
            length > 0 ==> offset + length <= total_spec(lengths@),
            done <= length,
            length > 0 ==> cur_file_index <= lengths@.len(),
            length > 0 && cur_file_index < lengths@.len() ==> cur_offset <= lengths@[cur_file_index as int],
            done < length ==> file_start(lengths@, cur_file_index as int) + cur_offset == offset + done,
            cur_file_index == lengths@.len() ==> cur_offset == 0,
            segs@.len() == 0 ==> done == 0 && cur_file_index == first_index && cur_offset == first_offset,
            first_index < lengths@.len(),
            segs@.len() > 0 ==> segs@.last().end == done && cur_file_index == segs@.last().file_index + 1
                && cur_offset == 0,
            length > 0 ==> first_index == locate(lengths@, offset as int, 0).0 && first_offset == locate(
                lengths@,
                offset as int,
                0,
            ).1,
            segs@.len() > 0 ==> segs@[0].file_index == first_index && segs@[0].offset == first_offset,
            forall|k: int| 0 <= k < segs@.len() ==> #[trigger] seg_ok(lengths@, offset as int, segs@[k]),
            forall|k: int| 0 < k < segs@.len() ==> #[trigger] segs@[k].start == segs@[k - 1].end,
            forall|k: int| 0 < k < segs@.len() ==> #[trigger] segs@[k].file_index == segs@[k - 1].file_index + 1,
            segs@.len() > 0 ==> segs@[0].start == 0,
            length == 0 ==> segs@.len() == 0,
        decreases lengths@.len() - cur_file_index,
    {
        proof {
            if cur_file_index >= lengths@.len() {
                assert(file_start(lengths@, lengths@.len() as int) == total_spec(lengths@));
                assert(false);
            }
        }
        let l = get_length_to_add(lengths, cur_file_index, cur_offset, length - done);
        let seg = Segment { file_index: cur_file_index, offset: cur_offset, start: done, end: done + l };
        assert(seg_ok(lengths@, offset as int, seg));
        segs.push(seg);
        proof {
            assert(file_start(lengths@, cur_file_index + 1) == file_start(lengths@, cur_file_index as int)
                + lengths@[cur_file_index as int]);
        }
        done = done + l;
        cur_file_index = cur_file_index + 1;
        cur_offset = 0;
        proof {
            if cur_file_index < lengths@.len() && done < length {
                assert(l == lengths@[cur_file_index - 1] - segs@.last().offset);
            }
        }
    }
    segs
}

/// The directory of a file of the torrent and its full path: under
/// `resources/`, the torrent's directory, then the file's directories.
pub open spec fn file_dir(base_dir: Seq<char>, path: Seq<Seq<char>>) -> Seq<char> {
    let dirs = path.drop_last();
    "resources/"@ + base_dir + "/"@ + if dirs.len() == 0 {
        Seq::empty()
    } else {
        joined(dirs) + "/"@
    }
}

/// The strings' character sequences.
pub open spec fn string_views(v: Seq<String>) -> Seq<Seq<char>> {
    v.map_values(|s: String| s@)
}

/// The parts joined with `/` between them.
pub open spec fn joined(parts: Seq<Seq<char>>) -> Seq<char>
    decreases parts.len(),
{
    if parts.len() == 0 {
        Seq::empty()
    } else if parts.len() == 1 {
        parts[0]
    } else {
        joined(parts.drop_last()) + "/"@ + parts.last()
    }
}

/// The directory to create for a file with path `path` (directories, then
/// the file name) in the torrent directory `base_dir`, and the file's full
/// path in it. The path must name a file.
pub fn file_location(base_dir: &str, path: &Vec<String>) -> (r: (String, String))
    requires
        path@.len() >= 1,
    ensures
        r.0@ == file_dir(base_dir@, string_views(path@)),
        r.1@ == file_dir(base_dir@, string_views(path@)) + path@.last()@,
{
    let ghost parts = string_views(path@);
    let n = path.len();
    let mut dir_path = String::from_str("resources/");
    dir_path.append(base_dir);
    dir_path.append("/");
    let ghost head = dir_path@;
    if n > 1 {
        let mut i: usize = 0;
        while i < n - 1
            invariant
                n == path@.len(),
                n > 1,
                0 <= i <= n - 1,
                parts == string_views(path@),
                i == 0 ==> dir_path@ == head,
                i > 0 ==> dir_path@ == head + joined(parts.take(i as int)),
            decreases n - 1 - i,
        {
            let ghost before = dir_path@;
            if i > 0 {
                dir_path.append("/");
            }
            dir_path.append(path[i].as_str());
            proof {
                let t = parts.take(i + 1);
                assert(t.drop_last() =~= parts.take(i as int));
                assert(t.last() == path@[i as int]@);
                if i == 0 {
                    assert(joined(t) == parts[0]);
                }
            }
            i = i + 1;
        }
        dir_path.append("/");
        proof {
            assert(parts.take(n - 1) =~= parts.drop_last());
        }
    } else {
        proof {
            assert(parts.drop_last().len() == 0);
        }
    }
    assert(dir_path@ =~= file_dir(base_dir@, parts));
    let mut full = dir_path.clone();
    full.append(path[n - 1].as_str());
    (dir_path, full)
}

/// A file entry: the torrent directory, the file's path, its length.
pub open spec fn entry_of(e: (String, Vec<String>, u64), dir: Seq<char>, f: crate::tracker_protocol::metadata::File) -> bool {
    &&& e.0@ == dir
    &&& string_views(e.1@) == string_views(f.path@)
    &&& e.2 == f.length
}

/// The files a torrent is laid out in: for a multi-file torrent its files
/// (under the torrent's name), otherwise one file named after the torrent
/// (in `.`), which must then have a length.
pub fn file_entries(info: &Info) -> (r: Vec<(String, Vec<String>, u64)>)
    requires
        info.files is None ==> info.length is Some,
    ensures
        info.files is Some ==> r@.len() == info.files.unwrap()@.len(),
        info.files is Some ==> forall|k: int|
            0 <= k < r@.len() ==> entry_of(#[trigger] r@[k], info.name@, info.files.unwrap()@[k]),
        info.files is None ==> r@.len() == 1 && r@[0].0@ == "."@ && r@[0].1@.len() == 1 && r@[0].1@[0]@
            == info.name@ && r@[0].2 == info.length.unwrap(),
{
    let mut out: Vec<(String, Vec<String>, u64)> = Vec::new();
    match &info.files {
        Some(files) => {
            let n = files.len();
            let mut k: usize = 0;
            while k < n
                invariant
                    n == files@.len(),
                    info.files == Some(*files),
                    0 <= k <= n,
                    out@.len() == k,
                    forall|j: int| 0 <= j < k ==> entry_of(#[trigger] out@[j], info.name@, files@[j]),
                decreases n - k,
            {
                let f = &files[k];
                let mut p: Vec<String> = Vec::new();
                let pn = f.path.len();
                let mut m: usize = 0;
                while m < pn
                    invariant
                        pn == f.path@.len(),
                        0 <= m <= pn,
                        p@.len() == m,
                        forall|q: int| 0 <= q < m ==> #[trigger] p@[q]@ == f.path@[q]@,
                    decreases pn - m,
                {
                    p.push(f.path[m].clone());
                    m = m + 1;
                }
                assert(string_views(p@) =~= string_views(f.path@));
                let name = info.name.clone();
                let ghost pv = p@;
                out.push((name, p, f.length));
                assert(out@[k as int].1@ == pv);
                k = k + 1;
            }
            assert(info.files.unwrap()@ == files@);
        },
        None => {
            let mut p: Vec<String> = Vec::new();
            p.push(info.name.clone());
            out.push((String::from_str("."), p, info.length.unwrap()));
        },
    }
    out
}

/// Parts joined with `/` start with the first part and end with the last.
proof fn lemma_joined_ends(parts: Seq<Seq<char>>)
    requires
        parts.len() >= 1,
    ensures
        joined(parts).len() >= parts[0].len(),
        joined(parts).len() >= parts.last().len(),
        joined(parts).subrange(0, parts[0].len() as int) == parts[0],
        joined(parts).subrange(joined(parts).len() - parts.last().len(), joined(parts).len() as int)
            == parts.last(),
    decreases parts.len(),
{
    if parts.len() > 1 {
        let init = parts.drop_last();
        lemma_joined_ends(init);
        let j = joined(init);
        assert(init[0] == parts[0]);
        assert((j + "/"@ + parts.last()).subrange(0, parts[0].len() as int) =~= j.subrange(
            0,
            parts[0].len() as int,
        ));
        let whole = j + "/"@ + parts.last();
        assert(whole.subrange(whole.len() - parts.last().len(), whole.len() as int) =~= parts.last());
    }
}

/// Where a file of the torrent goes: under `resources/`, the torrent's
/// directory, then every directory of its path in order, each followed by
/// `/`; a path of a file name alone goes straight into the torrent's
/// directory.
pub proof fn lemma_file_dir_law(base_dir: Seq<char>, path: Seq<Seq<char>>)
    requires
        path.len() >= 1,
    ensures
        ({
            let pre = "resources/"@ + base_dir + "/"@;
            let d = file_dir(base_dir, path);
            &&& d.len() >= pre.len()
            &&& d.subrange(0, pre.len() as int) == pre
            &&& path.len() == 1 ==> d == pre
            &&& path.len() >= 2 ==> {
                &&& d.len() >= pre.len() + path[0].len() + 1
                &&& d.subrange(pre.len() as int, (pre.len() + path[0].len()) as int) == path[0]
                &&& d.last() == '/'
                &&& d.subrange(d.len() - 1 - path[path.len() - 2].len(), d.len() - 1) == path[path.len() - 2]
            }
        }),
{
    reveal_strlit("/");
    let pre = "resources/"@ + base_dir + "/"@;
    let d = file_dir(base_dir, path);
    let dirs = path.drop_last();
    if path.len() == 1 {
        assert(d =~= pre);
    } else {
        lemma_joined_ends(dirs);
        let j = joined(dirs);
        assert(d == pre + (j + "/"@));
        assert(dirs[0] == path[0]);
        assert(dirs.last() == path[path.len() - 2]);
        assert(d.subrange(0, pre.len() as int) =~= pre);
        assert(d.subrange(pre.len() as int, (pre.len() + path[0].len()) as int) =~= j.subrange(0, path[0].len() as int));
        let lj = j.len() as int;
        let l = dirs.last().len() as int;
        let a = pre.len() + lj - l;
        assert(d.len() == pre.len() + lj + 1);
        assert forall|i: int| 0 <= i < l implies #[trigger] d.subrange(a, a + l)[i] == j.subrange(lj - l, lj)[i] by {
            assert(d[a + i] == j[lj - l + i]);
        }
        assert(d.subrange(a, a + l) =~= j.subrange(lj - l, lj));
    }
    if path.len() == 1 {
        assert(d.subrange(0, pre.len() as int) =~= pre);
    }
}

} // verus!
