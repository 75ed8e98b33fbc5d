//! The human-readable table dump of a manifest.
use crate::manifest::{path_bytes, ChunkInfo, FileInfo, Manifest, ManifestData};
use crate::version::StateSyncVersion;
use vstd::prelude::*;
use vstd::string::*;

verus! {

/// Relies on `String::push`: appends one character.
#[verifier::external_body]
fn push_char(out: &mut String, c: char)
    ensures
        final(out)@ == old(out)@.push(c),
{
    out.push(c)
}

/// The lowercase hexadecimal digit of `d`.
pub open spec fn hex_digit(d: u8) -> char {
    if d < 10 {
        (d + 48) as char
    } else {
        (d + 87) as char
    }
}

/// Two lowercase hexadecimal digits for each byte, the high one first.
pub open spec fn hex_chars(b: Seq<u8>) -> Seq<char>
    decreases b.len(),
{
    if b.len() == 0 {
        Seq::empty()
    } else {
        hex_chars(b.drop_last()) + seq![hex_digit(b.last() / 16), hex_digit(b.last() % 16)]
    }
}

/// Relies on `hex::encode`: two lowercase hexadecimal digits for each byte,
/// the high one first.
#[verifier::external_body]
fn hex_string(b: &[u8; 32]) -> (r: String)
    ensures
        r@ == hex_chars(b@),
{
    hex::encode(b)
}

/// The decimal digits of `n`.
pub open spec fn decimal(n: nat) -> Seq<char>
    decreases n,
{
    if n < 10 {
        seq![(n + 48) as char]
    } else {
        decimal(n / 10).push(((n % 10) + 48) as char)
    }
}

/// `n` spaces.
pub open spec fn spaces(n: int) -> Seq<char> {
    Seq::new(n as nat, |i: int| ' ')
}

/// `n` dashes.
pub open spec fn dashes(n: int) -> Seq<char> {
    Seq::new(n as nat, |i: int| '-')
}

/// `s` right-aligned in `w` columns.
pub open spec fn right(s: Seq<char>, w: int) -> Seq<char> {
    if s.len() >= w {
        s
    } else {
        spaces(w - s.len()) + s
    }
}

/// `s` centred in `w` columns, the odd space on the right.
pub open spec fn center(s: Seq<char>, w: int) -> Seq<char> {
    if s.len() >= w {
        s
    } else {
        let p = w - s.len();
        spaces(p / 2) + s + spaces(p - p / 2)
    }
}

/// The cells of a table header: each name centred in its width, separated by `|`.
pub open spec fn header_cells(cols: Seq<(&str, usize)>) -> Seq<char>
    decreases cols.len(),
{
    if cols.len() == 0 {
        Seq::empty()
    } else {
        header_cells(cols.drop_last()) + (if cols.len() > 1 {
            seq!['|']
        } else {
            Seq::empty()
        }) + center(cols.last().0@, cols.last().1 as int)
    }
}

/// The rule under a table header: dashes as wide as each column, separated by `+`.
pub open spec fn rule_cells(cols: Seq<(&str, usize)>) -> Seq<char>
    decreases cols.len(),
{
    if cols.len() == 0 {
        Seq::empty()
    } else {
        rule_cells(cols.drop_last()) + (if cols.len() > 1 {
            seq!['+']
        } else {
            Seq::empty()
        }) + dashes(cols.last().1 as int)
    }
}

/// A table header and the rule under it.
pub open spec fn header_text(cols: Seq<(&str, usize)>) -> Seq<char> {
    header_cells(cols) + seq!['\n'] + rule_cells(cols) + seq!['\n']
}

/// The widest path of the file table in bytes, or 6 where there is no file.
pub open spec fn max_path_len(files: Seq<FileInfo>) -> int
    decreases files.len(),
{
    if files.len() == 0 {
        6
    } else if files.len() == 1 {
        path_bytes(files[0]).len() as int
    } else {
        let rest = max_path_len(files.drop_last());
        let l = path_bytes(files.last()).len() as int;
        if l > rest {
            l
        } else {
            rest
        }
    }
}

/// The row of file `i` of the file table.
pub open spec fn file_row(i: int, f: FileInfo) -> Seq<char> {
    " "@ + right(decimal(i as nat), 10) + " | "@ + right(decimal(f.size_bytes as nat), 10) + " | "@
        + hex_chars(f.hash@) + " | "@ + f.relative_path@ + seq!['\n']
}

/// The rows of the file table.
pub open spec fn file_rows(files: Seq<FileInfo>) -> Seq<char>
    decreases files.len(),
{
    if files.len() == 0 {
        Seq::empty()
    } else {
        file_rows(files.drop_last()) + file_row(files.len() - 1, files.last())
    }
}

/// The row of chunk `i` of the chunk table.
pub open spec fn chunk_row(i: int, c: ChunkInfo) -> Seq<char> {
    " "@ + right(decimal(i as nat), 10) + " | "@ + right(decimal(c.file_index as nat), 10) + " | "@
        + right(decimal(c.offset as nat), 10) + " | "@ + right(decimal(c.size_bytes as nat), 10)
        + " | "@ + hex_chars(c.hash@) + seq!['\n']
}

/// The rows of the chunk table.
pub open spec fn chunk_rows(chunks: Seq<ChunkInfo>) -> Seq<char>
    decreases chunks.len(),
{
    if chunks.len() == 0 {
        Seq::empty()
    } else {
        chunk_rows(chunks.drop_last()) + chunk_row(chunks.len() - 1, chunks.last())
    }
}

/// The columns of the file table.
pub open spec fn file_columns(path_width: usize) -> Seq<(&'static str, usize)> {
    seq![("idx", 12usize), ("size", 12usize), ("hash", 66usize), ("path", path_width)]
}

/// The columns of the chunk table.
pub open spec fn chunk_columns() -> Seq<(&'static str, usize)> {
    seq![("idx", 12usize), ("file_idx", 12usize), ("offset", 12usize), ("size", 12usize), ("hash", 66usize)]
}

/// The text dump of a manifest: its version, then its file table and its
/// chunk table, each under a header.
pub open spec fn manifest_text(m: ManifestData) -> Seq<char> {
    "MANIFEST VERSION: "@ + seq!['V', (m.version.number() + 48) as char] + seq!['\n']
        + "FILE TABLE\n"@ + header_text(file_columns(max_path_len(m.file_table@) as usize))
        + file_rows(m.file_table@) + "CHUNK TABLE\n"@ + header_text(chunk_columns())
        + chunk_rows(m.chunk_table@)
}

fn decimal_chars(n: u64) -> (r: Vec<char>)
    ensures
        r@ == decimal(n as nat),
    decreases n,
{
    if n < 10 {
        let mut r: Vec<char> = Vec::new();
        r.push(((n as u8) + 48) as char);
        r
    } else {
        let mut r = decimal_chars(n / 10);
        r.push((((n % 10) as u8) + 48) as char);
        r
    }
}

fn push_chars(out: &mut String, cs: &Vec<char>)
    ensures
        final(out)@ == old(out)@ + cs@,
{
    let ghost start = out@;
    let mut i: usize = 0;
    while i < cs.len()
        invariant
            i <= cs@.len(),
            out@ == start + cs@.subrange(0, i as int),
        decreases cs@.len() - i,
    {
        push_char(out, cs[i]);
        i = i + 1;
        assert(out@ =~= start + cs@.subrange(0, i as int));
    }
    assert(cs@.subrange(0, i as int) =~= cs@);
}

fn push_repeat(out: &mut String, c: char, n: usize)
    ensures
        final(out)@ == old(out)@ + Seq::new(n as nat, |i: int| c),
{
    let ghost start = out@;
    let mut i: usize = 0;
    while i < n
        invariant
            i <= n,
            out@ == start + Seq::new(i as nat, |k: int| c),
        decreases n - i,
    {
        push_char(out, c);
        i = i + 1;
        assert(out@ =~= start + Seq::new(i as nat, |k: int| c));
    }
}

fn push_right(out: &mut String, s: &Vec<char>, w: usize)
    ensures
        final(out)@ == old(out)@ + right(s@, w as int),
{
    if s.len() < w {
        push_repeat(out, ' ', w - s.len());
    }
    push_chars(out, s);
    assert(final(out)@ =~= old(out)@ + right(s@, w as int));
}

fn push_center(out: &mut String, s: &str, w: usize)
    requires
        is_ascii(s),
    ensures
        final(out)@ == old(out)@ + center(s@, w as int),
{
    proof {
        is_ascii_spec_bytes(s);
    }
    let len = s.as_bytes().len();
    assert(s.spec_bytes() =~= Seq::new(s@.len(), |i| s@.index(i) as u8));
    assert(len == s@.len());
    if len < w {
        let p = w - len;
        push_repeat(out, ' ', p / 2);
        out.append(s);
        push_repeat(out, ' ', p - p / 2);
    } else {
        out.append(s);
    }
    assert(final(out)@ =~= old(out)@ + center(s@, w as int));
}

fn push_header(out: &mut String, cols: &[(&str, usize)])
    requires
        forall|i: int| 0 <= i < cols@.len() ==> is_ascii(#[trigger] cols@[i].0),
    ensures
        final(out)@ == old(out)@ + header_text(cols@),
{
    let ghost start = out@;
    let mut i: usize = 0;
    while i < cols.len()
        invariant
            i <= cols@.len(),
            forall|k: int| 0 <= k < cols@.len() ==> is_ascii(#[trigger] cols@[k].0),
            out@ == start + header_cells(cols@.subrange(0, i as int)),
        decreases cols@.len() - i,
    {
        if i > 0 {
            push_char(out, '|');
        }
        let (name, width) = cols[i];
        assert(is_ascii(cols@[i as int].0));
        push_center(out, name, width);
        i = i + 1;
        assert(cols@.subrange(0, i as int).drop_last() =~= cols@.subrange(0, i - 1));
        assert(out@ =~= start + header_cells(cols@.subrange(0, i as int)));
    }
    assert(cols@.subrange(0, i as int) =~= cols@);
    push_char(out, '\n');
    let ghost mid = out@;
    i = 0;
    while i < cols.len()
        invariant
            i <= cols@.len(),
            out@ == mid + rule_cells(cols@.subrange(0, i as int)),
        decreases cols@.len() - i,
    {
        if i > 0 {
            push_char(out, '+');
        }
        push_repeat(out, '-', cols[i].1);
        i = i + 1;
        assert(cols@.subrange(0, i as int).drop_last() =~= cols@.subrange(0, i - 1));
        assert(out@ =~= mid + rule_cells(cols@.subrange(0, i as int)));
    }
    assert(cols@.subrange(0, i as int) =~= cols@);
    push_char(out, '\n');
    assert(final(out)@ =~= old(out)@ + header_text(cols@));
}

fn push_file_row(out: &mut String, i: usize, f: &FileInfo)
    ensures
        final(out)@ == old(out)@ + file_row(i as int, *f),
{
    out.append(" ");
    push_right(out, &decimal_chars(i as u64), 10);
    out.append(" | ");
    push_right(out, &decimal_chars(f.size_bytes), 10);
    out.append(" | ");
    let h = hex_string(&f.hash);
    out.append(h.as_str());
    out.append(" | ");
    out.append(f.relative_path.as_str());
    push_char(out, '\n');
    assert(final(out)@ =~= old(out)@ + file_row(i as int, *f));
}

fn push_chunk_row(out: &mut String, i: usize, c: &ChunkInfo)
    ensures
        final(out)@ == old(out)@ + chunk_row(i as int, *c),
{
    out.append(" ");
    push_right(out, &decimal_chars(i as u64), 10);
    out.append(" | ");
    push_right(out, &decimal_chars(c.file_index as u64), 10);
    out.append(" | ");
    push_right(out, &decimal_chars(c.offset), 10);
    out.append(" | ");
    push_right(out, &decimal_chars(c.size_bytes as u64), 10);
    out.append(" | ");
    let h = hex_string(&c.hash);
    out.append(h.as_str());
    push_char(out, '\n');
    assert(final(out)@ =~= old(out)@ + chunk_row(i as int, *c));
}

fn widest_path(files: &Vec<FileInfo>) -> (r: usize)
    ensures
        r == max_path_len(files@),
{
    if files.len() == 0 {
        return 6;
    }
    let mut best: usize = files[0].relative_path.as_str().as_bytes().len();
    let mut i: usize = 1;
    while i < files.len()
        invariant
            1 <= i <= files@.len(),
            best == max_path_len(files@.subrange(0, i as int)),
        decreases files@.len() - i,
    {
        let l = files[i].relative_path.as_str().as_bytes().len();
        proof {
            assert(files@.subrange(0, i + 1).drop_last() =~= files@.subrange(0, i as int));
        }
        if l > best {
            best = l;
        }
        i = i + 1;
    }
    assert(files@.subrange(0, i as int) =~= files@);
    best
}

impl Manifest {
    /// The human-readable dump of the manifest: its version, then its file
    /// table and its chunk table, each under a header.
    pub fn to_text(&self) -> (r: String)
        ensures
            r@ == manifest_text(self@),
    {
        let m = self.data();
        let mut out = String::new();
        out.append("MANIFEST VERSION: ");
        out.append(m.version.name().as_str());
        push_char(&mut out, '\n');
        out.append("FILE TABLE\n");
        let path_width = widest_path(&m.file_table);
        let file_cols: [(&str, usize); 4] = [("idx", 12), ("size", 12), ("hash", 66), ("path", path_width)];
        proof {
            reveal_strlit("idx");
            reveal_strlit("size");
            reveal_strlit("hash");
            reveal_strlit("path");
            assert(file_cols@ =~= file_columns(path_width));
        }
        push_header(&mut out, &file_cols);
        let ghost after_files_header = out@;
        let mut i: usize = 0;
        while i < m.file_table.len()
            invariant
                i <= m.file_table@.len(),
                out@ == after_files_header + file_rows(m.file_table@.subrange(0, i as int)),
            decreases m.file_table@.len() - i,
        {
            push_file_row(&mut out, i, &m.file_table[i]);
            i = i + 1;
            assert(m.file_table@.subrange(0, i as int).drop_last() =~= m.file_table@.subrange(0, i - 1));
        }
        assert(m.file_table@.subrange(0, i as int) =~= m.file_table@);
        out.append("CHUNK TABLE\n");
        let chunk_cols: [(&str, usize); 5] = [("idx", 12), ("file_idx", 12), ("offset", 12), ("size", 12), ("hash", 66)];
        proof {
            reveal_strlit("idx");
            reveal_strlit("file_idx");
            reveal_strlit("offset");
            reveal_strlit("size");
            reveal_strlit("hash");
            assert(chunk_cols@ =~= chunk_columns());
        }
        push_header(&mut out, &chunk_cols);
        let ghost after_chunks_header = out@;
        let mut j: usize = 0;
        while j < m.chunk_table.len()
            invariant
                j <= m.chunk_table@.len(),
                out@ == after_chunks_header + chunk_rows(m.chunk_table@.subrange(0, j as int)),
            decreases m.chunk_table@.len() - j,
        {
            push_chunk_row(&mut out, j, &m.chunk_table[j]);
            j = j + 1;
            assert(m.chunk_table@.subrange(0, j as int).drop_last() =~= m.chunk_table@.subrange(0, j - 1));
        }
        assert(m.chunk_table@.subrange(0, j as int) =~= m.chunk_table@);
        assert(out@ =~= manifest_text(self@));
        out
    }
}

} // verus!
