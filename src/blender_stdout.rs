//! Frames the mesh data that the export script writes to Blender's standard output:
//!
//! ```text
//! START_MESH_JSON /path/to/file.blend my_mesh_name
//! {...}
//! END_MESH_JSON /path/to/file.blend my_mesh_name
//! ```
use vstd::prelude::*;

verus! {

/// `\n`
pub const NEWLINE: u8 = 10;

/// `\r`
pub const CARRIAGE_RETURN: u8 = 13;

/// ` `
pub const SPACE: u8 = 32;

/// The line that opens a mesh block: `START_MESH_JSON` in ASCII.
pub open spec fn start_marker() -> Seq<u8> {
    seq![83u8, 84, 65, 82, 84, 95, 77, 69, 83, 72, 95, 74, 83, 79, 78]
}

/// The line that closes a mesh block: `END_MESH_JSON` in ASCII.
pub open spec fn end_marker() -> Seq<u8> {
    seq![69u8, 78, 68, 95, 77, 69, 83, 72, 95, 74, 83, 79, 78]
}

/// Whether `pat` occurs in `s` at `i`.
pub open spec fn occurs_at(s: Seq<u8>, i: int, pat: Seq<u8>) -> bool {
    0 <= i && i + pat.len() <= s.len() && s.subrange(i, i + pat.len()) == pat
}

/// The first place at or after `j` where `pat` occurs in `s`, or -1.
pub open spec fn find_from(s: Seq<u8>, pat: Seq<u8>, j: int) -> int
    decreases s.len() + 1 - j,
{
    if j < 0 || j + pat.len() > s.len() {
        -1
    } else if occurs_at(s, j, pat) {
        j
    } else {
        find_from(s, pat, j + 1)
    }
}

/// The first place at or after `j` where byte `c` stands in `s`, or the length of `s`.
pub open spec fn first_from(s: Seq<u8>, c: u8, j: int) -> int
    decreases s.len() - j,
{
    if j < 0 || j >= s.len() {
        s.len() as int
    } else if s[j] == c {
        j
    } else {
        first_from(s, c, j + 1)
    }
}

/// The last place before `n` where byte `c` stands in `s`, or -1.
pub open spec fn last_before(s: Seq<u8>, c: u8, n: int) -> int
    decreases n,
{
    if n <= 0 {
        -1
    } else if s[n - 1] == c {
        n - 1
    } else {
        last_before(s, c, n - 1)
    }
}

/// The first line of `block`, without its line ending (`\n` or `\r\n`).
pub open spec fn header_line(block: Seq<u8>) -> Seq<u8> {
    let nl = first_from(block, NEWLINE, 0);
    if nl < block.len() && nl > 0 && block[nl - 1] == CARRIAGE_RETURN {
        block.take(nl - 1)
    } else {
        block.take(nl)
    }
}

/// What follows the first line of `block`.
pub open spec fn body(block: Seq<u8>) -> Seq<u8> {
    let nl = first_from(block, NEWLINE, 0);
    if nl < block.len() {
        block.skip(nl + 1)
    } else {
        Seq::empty()
    }
}

/// Whether byte `i` of `s` is part of a line rather than of a line ending.
pub open spec fn in_line(s: Seq<u8>, i: int) -> bool {
    s[i] != NEWLINE && !(s[i] == CARRIAGE_RETURN && i + 1 < s.len() && s[i + 1] == NEWLINE)
}

/// The lines among the first `n` bytes of `s`, joined without their line endings.
pub open spec fn joined_prefix(s: Seq<u8>, n: int) -> Seq<u8>
    decreases n,
{
    if n <= 0 {
        Seq::empty()
    } else if in_line(s, n - 1) {
        joined_prefix(s, n - 1).push(s[n - 1])
    } else {
        joined_prefix(s, n - 1)
    }
}

/// The lines of `s` joined without their line endings.
pub open spec fn joined_lines(s: Seq<u8>) -> Seq<u8> {
    joined_prefix(s, s.len() as int)
}

/// One mesh found in Blender's output.
#[derive(Debug, Clone, PartialEq, Eq)]
pub struct MeshBlock {
    /// The `.blend` file that holds the mesh: the second word of the opening line.
    pub filename: Vec<u8>,
    /// The mesh's name: the last word of the opening line.
    pub mesh_name: Vec<u8>,
    /// The mesh data: the lines between the opening line and the closing marker, joined.
    pub json: Vec<u8>,
    /// Where to look for the next mesh.
    pub next_index: usize,
}

/// Why a mesh block could not be framed.
#[derive(Debug, Clone, Copy, PartialEq, Eq)]
pub enum FramingError {
    /// A block opens and no closing marker follows.
    MissingEnd,
    /// The first closing marker comes before the opening one.
    EndBeforeStart,
    /// The opening line names no file.
    MissingFilename,
}

fn start_marker_bytes() -> (r: Vec<u8>)
    ensures
        r@ == start_marker(),
{
    let r = vec![83u8, 84, 65, 82, 84, 95, 77, 69, 83, 72, 95, 74, 83, 79, 78];
    assert(r@ =~= start_marker());
    r
}

fn end_marker_bytes() -> (r: Vec<u8>)
    ensures
        r@ == end_marker(),
{
    let r = vec![69u8, 78, 68, 95, 77, 69, 83, 72, 95, 74, 83, 79, 78];
    assert(r@ =~= end_marker());
    r
}

/// Whether `pat` occurs in `s[from..]` at `i`.
fn matches_at(s: &[u8], from: usize, i: usize, pat: &Vec<u8>) -> (r: bool)
    requires
        from <= s@.len(),
    ensures
        r == occurs_at(s@.skip(from as int), i as int, pat@),
{
    let ghost t = s@.skip(from as int);
    let n = s.len();
    if i > n - from || pat.len() > n - from - i {
        return false;
    }
    let mut k: usize = 0;
    while k < pat.len()
        invariant
            from + i + pat@.len() <= n == s@.len(),
            t == s@.skip(from as int),
            k <= pat@.len(),
            forall|q: int| 0 <= q < k ==> t[i + q] == pat@[q],
        decreases pat@.len() - k,
    {
        if s[from + i + k] != pat[k] {
            assert(t.subrange(i as int, i + pat@.len())[k as int] != pat@[k as int]);
            return false;
        }
        k += 1;
    }
    assert(t.subrange(i as int, i + pat@.len()) =~= pat@);
    true
}

/// The first place where `pat` occurs in `s[from..]`, or -1.
fn find(s: &[u8], from: usize, pat: &Vec<u8>) -> (r: Option<usize>)
    requires
        from <= s@.len(),
    ensures
        match r {
            Some(i) => find_from(s@.skip(from as int), pat@, 0) == i,
            None => find_from(s@.skip(from as int), pat@, 0) == -1,
        },
{
    let ghost t = s@.skip(from as int);
    let n = s.len() - from;
    let mut i: usize = 0;
    while i < n
        invariant
            i <= n == t.len(),
            t == s@.skip(from as int),
            from <= s@.len(),
            find_from(t, pat@, 0) == find_from(t, pat@, i as int),
        decreases n - i,
    {
        if pat.len() > n - i {
            return None;
        }
        if matches_at(s, from, i, pat) {
            assert(find_from(t, pat@, i as int) == i);
            return Some(i);
        }
        i += 1;
    }
    assert(find_from(t, pat@, n as int + 1) == -1);
    if matches_at(s, from, n, pat) {
        Some(n)
    } else {
        None
    }
}

/// The first place at or after `j` where byte `c` stands in `s`, or its length.
fn first_byte(s: &Vec<u8>, c: u8, j: usize) -> (r: usize)
    ensures
        r as int == first_from(s@, c, j as int),
{
    let mut k = j;
    if k >= s.len() {
        return s.len();
    }
    while k < s.len()
        invariant
            j <= k,
            first_from(s@, c, j as int) == first_from(s@, c, k as int),
        decreases s@.len() - k,
    {
        if s[k] == c {
            return k;
        }
        k += 1;
    }
    s.len()
}

/// The last place before the end of `s` where byte `c` stands, or none.
fn last_byte(s: &Vec<u8>, c: u8) -> (r: Option<usize>)
    ensures
        match r {
            Some(i) => i as int == last_before(s@, c, s@.len() as int),
            None => last_before(s@, c, s@.len() as int) == -1,
        },
{
    let mut n = s.len();
    while n > 0
        invariant
            n <= s@.len(),
            last_before(s@, c, s@.len() as int) == last_before(s@, c, n as int),
        decreases n,
    {
        if s[n - 1] == c {
            return Some(n - 1);
        }
        n -= 1;
    }
    None
}

/// `s[a..b]` as a new vector.
fn copy_range(s: &[u8], a: usize, b: usize) -> (r: Vec<u8>)
    requires
        a <= b <= s@.len(),
    ensures
        r@ == s@.subrange(a as int, b as int),
{
    let mut r: Vec<u8> = Vec::new();
    let mut k = a;
    while k < b
        invariant
            a <= k <= b <= s@.len(),
            r@ == s@.subrange(a as int, k as int),
        decreases b - k,
    {
        r.push(s[k]);
        k += 1;
        assert(r@ =~= s@.subrange(a as int, k as int));
    }
    r
}

/// The lines of `s` joined without their line endings.
fn join_lines(s: &Vec<u8>) -> (r: Vec<u8>)
    ensures
        r@ == joined_lines(s@),
{
    let mut r: Vec<u8> = Vec::new();
    let mut k: usize = 0;
    while k < s.len()
        invariant
            k <= s@.len(),
            r@ == joined_prefix(s@, k as int),
        decreases s@.len() - k,
    {
        let b = s[k];
        let keep = b != NEWLINE && !(b == CARRIAGE_RETURN && k + 1 < s.len() && s[k + 1] == NEWLINE);
        if keep {
            r.push(b);
        }
        k += 1;
    }
    r
}

/// Finds the first mesh block in `stdout[index..]`.
///
/// `Ok(None)` when no block opens there. Else the block runs from the first opening
/// marker to the first closing marker; its opening line gives the file (second word)
/// and the mesh name (last word), and its other lines, joined, the mesh data. The next
/// search starts one byte into the closing marker.
pub fn find_first_mesh_after_index(stdout: &[u8], index: usize) -> (r: Result<Option<MeshBlock>, FramingError>)
    requires
        index <= stdout@.len(),
    ensures
        ({
            let s = stdout@.skip(index as int);
            let ms = find_from(s, start_marker(), 0);
            let me = find_from(s, end_marker(), 0);
            let block = s.subrange(ms, me);
            let line = header_line(block);
            let sp1 = first_from(line, SPACE, 0);
            &&& ms == -1 ==> r == Ok::<Option<MeshBlock>, FramingError>(None)
            &&& ms >= 0 && me == -1 ==> r == Err::<Option<MeshBlock>, FramingError>(FramingError::MissingEnd)
            &&& ms >= 0 && 0 <= me < ms ==> r == Err::<Option<MeshBlock>, FramingError>(FramingError::EndBeforeStart)
            &&& ms >= 0 && me >= ms && sp1 == line.len() ==> r == Err::<Option<MeshBlock>, FramingError>(FramingError::MissingFilename)
            &&& ms >= 0 && me >= ms && sp1 < line.len() ==> match r {
                Ok(Some(b)) => {
                    &&& b.filename@ == line.subrange(sp1 + 1, first_from(line, SPACE, sp1 + 1))
                    &&& b.mesh_name@ == line.skip(last_before(line, SPACE, line.len() as int) + 1)
                    &&& b.json@ == joined_lines(body(block))
                    &&& b.next_index == index + me + 1
                },
                _ => false,
            }
        }),
{
    let ghost s = stdout@.skip(index as int);
    let total_len = stdout.len();
    let start = start_marker_bytes();
    let end = end_marker_bytes();
    let ms = match find(stdout, index, &start) {
        Some(ms) => ms,
        None => return Ok(None),
    };
    assert(find_from(s, start_marker(), 0) == ms);
    let me = match find(stdout, index, &end) {
        Some(me) => me,
        None => return Err(FramingError::MissingEnd),
    };
    assert(find_from(s, end_marker(), 0) == me);
    if me < ms {
        return Err(FramingError::EndBeforeStart);
    }
    proof {
        lemma_find_from_bounds(s, start_marker(), 0);
        lemma_find_from_bounds(s, end_marker(), 0);
        assert(index + s.len() == total_len);
    }
    let block = copy_range(stdout, index + ms, index + me);
    assert(block@ =~= s.subrange(ms as int, me as int));
    let nl = first_byte(&block, NEWLINE, 0);
    proof {
        lemma_first_from_bounds(block@, NEWLINE, 0);
    }
    let line_end = if nl < block.len() && nl > 0 && block[nl - 1] == CARRIAGE_RETURN {
        nl - 1
    } else {
        nl
    };
    let line = copy_range(block.as_slice(), 0, line_end);
    assert(line@ =~= header_line(block@));
    let sp1 = first_byte(&line, SPACE, 0);
    if sp1 >= line.len() {
        return Err(FramingError::MissingFilename);
    }
    let sp2 = first_byte(&line, SPACE, sp1 + 1);
    proof {
        lemma_first_from_bounds(line@, SPACE, sp1 + 1);
    }
    let filename = copy_range(line.as_slice(), sp1 + 1, sp2);
    proof {
        lemma_last_before_bounds(line@, SPACE, line@.len() as int);
    }
    let name_start = match last_byte(&line, SPACE) {
        Some(p) => p + 1,
        None => 0,
    };
    let mesh_name = copy_range(line.as_slice(), name_start, line.len());
    assert(mesh_name@ =~= line@.skip(last_before(line@, SPACE, line@.len() as int) + 1));
    let rest = if nl < block.len() {
        copy_range(block.as_slice(), nl + 1, block.len())
    } else {
        Vec::new()
    };
    assert(rest@ =~= body(block@));
    let json = join_lines(&rest);
    Ok(Some(MeshBlock { filename, mesh_name, json, next_index: index + me + 1 }))
}

proof fn lemma_find_from_bounds(s: Seq<u8>, pat: Seq<u8>, j: int)
    requires
        0 <= j,
    ensures
        find_from(s, pat, j) == -1 || (j <= find_from(s, pat, j) && find_from(s, pat, j) + pat.len() <= s.len()),
    decreases s.len() + 1 - j,
{
    if j + pat.len() <= s.len() && !occurs_at(s, j, pat) {
        lemma_find_from_bounds(s, pat, j + 1);
    }
}

proof fn lemma_first_from_bounds(s: Seq<u8>, c: u8, j: int)
    requires
        0 <= j,
    ensures
        j <= first_from(s, c, j) <= s.len() || (j > s.len() && first_from(s, c, j) == s.len()),
    decreases s.len() - j,
{
    if j < s.len() && s[j] != c {
        lemma_first_from_bounds(s, c, j + 1);
    }
}

proof fn lemma_last_before_bounds(s: Seq<u8>, c: u8, n: int)
    ensures
        -1 <= last_before(s, c, n),
        n > 0 ==> last_before(s, c, n) < n,
    decreases n,
{
    if n > 0 && s[n - 1] != c {
        lemma_last_before_bounds(s, c, n - 1);
    }
}

} // verus!
