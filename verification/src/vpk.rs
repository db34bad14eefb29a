//! Reader for the directory tree of Valve Pak (VPK) version 1 files: finds
//! the mission file (`missions/*.txt`) and the `addoninfo.txt` of an addon
//! and returns their text.
use vstd::prelude::*;
use vstd::string::StrSliceExecFns;

verus! {

pub const VPK_SIGNATURE: u32 = 0x55AA1234;

pub const VPK_VERSION_V1: u32 = 1;

pub const VPK_ENTRY_TERMINATOR: u16 = 0xFFFF;

/// Size of the fixed header: signature, version and tree size.
pub const VPK_HEADER_LEN: usize = 12;

/// Size of a directory entry after its file name.
pub const VPK_ENTRY_LEN: usize = 18;

/// Why a VPK file could not be read.
#[derive(Debug, Clone, Copy, PartialEq, Eq, Structural)]
pub enum VpkError {
    /// The file ends inside a header, a directory entry or its preload data.
    UnexpectedEof,
    /// The first four bytes are not the VPK signature; holds what was read.
    BadSignature(u32),
    /// The version is not 1; holds what was read.
    UnsupportedVersion(u32),
    /// A directory entry does not end with `0xFFFF`.
    BadTerminator,
    /// The data of a wanted file lives in a separate archive; holds its index.
    MultiArchive(u16),
    /// The data of a wanted file lies past the end of the file.
    DataOutOfRange,
    /// The file has no mission file.
    NoMission,
    /// The file has no `addoninfo.txt`.
    NoAddonInfo,
}

/// What `String::from_utf8_lossy` makes of a byte sequence: its UTF-8
/// decoding, with each invalid sequence replaced by U+FFFD.
pub uninterp spec fn utf8_lossy(bytes: Seq<u8>) -> Seq<char>;

/// The characters of a byte sequence read one byte per character.
pub open spec fn latin_chars(bytes: Seq<u8>) -> Seq<char> {
    bytes.map_values(|b: u8| b as char)
}

/// Whether every byte is below 0x80.
pub open spec fn all_ascii(bytes: Seq<u8>) -> bool {
    forall|i: int| 0 <= i < bytes.len() ==> bytes[i] < 0x80
}

/// Decodes `bytes` as UTF-8 with `String::from_utf8_lossy` (std). The result
/// is named by `utf8_lossy`; ASCII input, which is valid UTF-8, comes back
/// unchanged, one character per byte.
#[verifier::external_body]
fn lossy_string(bytes: &[u8]) -> (s: String)
    ensures
        s@ == utf8_lossy(bytes@),
        all_ascii(bytes@) ==> s@ == latin_chars(bytes@),
        vstd::utf8::valid_utf8(bytes@) ==> s@ == vstd::utf8::decode_utf8(bytes@),
{
    String::from_utf8_lossy(bytes).into_owned()
}

/// The text of a name in the directory tree, as `String::from_utf8_lossy`
/// decodes it: an ASCII name reads one character per byte.
pub open spec fn name_text(bytes: Seq<u8>) -> Seq<char> {
    if all_ascii(bytes) {
        latin_chars(bytes)
    } else {
        utf8_lossy(bytes)
    }
}

/// The little-endian `u16` at `p`.
pub open spec fn le_u16(d: Seq<u8>, p: int) -> u16 {
    (d[p] as int + d[p + 1] as int * 0x100) as u16
}

/// The little-endian `u32` at `p`.
pub open spec fn le_u32(d: Seq<u8>, p: int) -> u32 {
    (d[p] as int + d[p + 1] as int * 0x100 + d[p + 2] as int * 0x10000 + d[p + 3] as int
        * 0x1000000) as u32
}

/// Index of the first zero byte at or after `p`, or `d.len()`.
pub open spec fn cstr_end(d: Seq<u8>, p: int) -> int
    decreases d.len() - p,
{
    if p < 0 || p >= d.len() {
        d.len() as int
    } else if d[p] == 0 {
        p
    } else {
        cstr_end(d, p + 1)
    }
}

/// The end of a zero-terminated string lies between its start and the end
/// of the data, at a zero byte when before the end, with no zero before it.
pub proof fn lemma_cstr_end_bounds(d: Seq<u8>, p: int)
    requires
        0 <= p <= d.len(),
    ensures
        p <= cstr_end(d, p) <= d.len(),
        cstr_end(d, p) < d.len() ==> d[cstr_end(d, p)] == 0,
        forall|k: int| p <= k < cstr_end(d, p) ==> d[k] != 0,
    decreases d.len() - p,
{
    if p < d.len() && d[p] != 0 {
        lemma_cstr_end_bounds(d, p + 1);
    }
}

/// Position just past the zero-terminated string at `p` (past its terminator,
/// or the end of the data when there is none).
pub open spec fn cstr_next(d: Seq<u8>, p: int) -> int {
    let e = cstr_end(d, p);
    if e < d.len() {
        e + 1
    } else {
        d.len() as int
    }
}

/// The bytes of the zero-terminated string at `p`.
pub open spec fn cstr_bytes(d: Seq<u8>, p: int) -> Seq<u8> {
    d.subrange(p, cstr_end(d, p))
}

/// ASCII lower case of a character; other characters are unchanged.
pub open spec fn ascii_lower(c: char) -> u32 {
    if 'A' <= c <= 'Z' {
        (c as u32 + 32) as u32
    } else {
        c as u32
    }
}

/// Equality of two texts up to ASCII case.
pub open spec fn eq_ignore_ascii_case(a: Seq<char>, b: Seq<char>) -> bool {
    &&& a.len() == b.len()
    &&& forall|i: int| 0 <= i < a.len() ==> ascii_lower(a[i]) == ascii_lower(b[i])
}

/// The contents that the reader looks for.
pub struct VpkContents {
    pub mission: Option<Seq<char>>,
    pub addoninfo: Option<Seq<char>>,
}

/// Where the reader is in the directory tree: reading an extension, a
/// directory inside extension `ext`, or a file name inside `dir`.
pub enum TreeLevel {
    Extension,
    Directory { ext: Seq<char> },
    File { ext: Seq<char>, dir: Seq<char> },
}

pub open spec fn level_rank(l: TreeLevel) -> int {
    match l {
        TreeLevel::Extension => 0,
        TreeLevel::Directory { .. } => 1,
        TreeLevel::File { .. } => 2,
    }
}

/// Whether an entry is a mission file: extension `txt` in directory `missions`.
pub open spec fn is_mission_entry(ext: Seq<char>, dir: Seq<char>) -> bool {
    eq_ignore_ascii_case(ext, "txt"@) && eq_ignore_ascii_case(dir, "missions"@)
}

/// Whether an entry is `addoninfo.txt` at the root of the tree.
pub open spec fn is_addoninfo_entry(ext: Seq<char>, dir: Seq<char>, name: Seq<char>) -> bool {
    eq_ignore_ascii_case(ext, "txt"@) && dir.len() == 0 && eq_ignore_ascii_case(
        name,
        "addoninfo"@,
    )
}

/// The text of a file whose data is `length` bytes at `offset` past the end of
/// the tree, in archive `archive`. Only data stored in the directory file
/// itself (archive 0, 0x7FFF or 0xFF7F) can be read.
pub open spec fn entry_data(d: Seq<u8>, tree_end: int, archive: u16, offset: u32, length: u32) -> Result<Seq<char>, VpkError> {
    if length == 0 {
        Ok(Seq::empty())
    } else if !(archive == 0x7FFF || archive == 0xFF7F || archive == 0) {
        Err(VpkError::MultiArchive(archive))
    } else if tree_end + offset + length > d.len() {
        Err(VpkError::DataOutOfRange)
    } else {
        Ok(utf8_lossy(d.subrange(tree_end + offset, tree_end + offset + length)))
    }
}

/// Reads the 18-byte directory entry at `p` of the file `name` in directory
/// `dir` of extension `ext`, and skips its preload bytes. When the file is the
/// first mission file or the first `addoninfo.txt`, its data is read into
/// `found`. Returns the position after the entry with what was found.
pub open spec fn read_entry_spec(
    d: Seq<u8>,
    tree_end: int,
    p: int,
    ext: Seq<char>,
    dir: Seq<char>,
    name: Seq<char>,
    found: VpkContents,
) -> Result<(int, VpkContents), VpkError> {
    if p < 0 || p + 18 > d.len() {
        Err(VpkError::UnexpectedEof)
    } else if le_u16(d, p + 16) != 0xFFFF {
        Err(VpkError::BadTerminator)
    } else {
        let preload = le_u16(d, p + 4);
        let archive = le_u16(d, p + 6);
        let offset = le_u32(d, p + 8);
        let length = le_u32(d, p + 12);
        let after = p + 18 + preload;
        if after > d.len() {
            Err(VpkError::UnexpectedEof)
        } else {
            let mission = if found.mission is None && is_mission_entry(ext, dir) {
                match entry_data(d, tree_end, archive, offset, length) {
                    Ok(text) => Ok(Some(text)),
                    Err(e) => Err(e),
                }
            } else {
                Ok(found.mission)
            };
            match mission {
                Err(e) => Err(e),
                Ok(mission) => {
                    let addoninfo = if found.addoninfo is None && is_addoninfo_entry(
                        ext,
                        dir,
                        name,
                    ) {
                        match entry_data(d, tree_end, archive, offset, length) {
                            Ok(text) => Ok(Some(text)),
                            Err(e) => Err(e),
                        }
                    } else {
                        Ok(found.addoninfo)
                    };
                    match addoninfo {
                        Err(e) => Err(e),
                        Ok(addoninfo) => Ok((after, VpkContents { mission, addoninfo })),
                    }
                },
            }
        }
    }
}

/// Reading an entry moves past its 18 bytes.
pub proof fn lemma_read_entry_advances(
    d: Seq<u8>,
    tree_end: int,
    p: int,
    ext: Seq<char>,
    dir: Seq<char>,
    name: Seq<char>,
    found: VpkContents,
)
    ensures
        read_entry_spec(d, tree_end, p, ext, dir, name, found) matches Ok((after, _)) ==> p + 18
            <= after <= d.len(),
{
}

/// Reads the directory tree of `d` (which ends at `tree_end`) from position
/// `pos` at tree level `level`, with `found` holding what was found so far.
///
/// The tree is a list of extensions; each extension a list of directories;
/// each directory a list of file names followed by an 18-byte entry (CRC,
/// preload length, archive index, data offset, data length, `0xFFFF`) and
/// the preload bytes. Each list ends with an empty string; directory and file
/// lists also end at the end of the tree. The first mission file and the
/// first `addoninfo.txt` have their data read.
pub open spec fn read_tree(d: Seq<u8>, tree_end: int, pos: int, level: TreeLevel, found: VpkContents) -> Result<VpkContents, VpkError>
    decreases d.len() - pos, level_rank(level),
{
    if pos < 0 || pos > d.len() {
        Err(VpkError::UnexpectedEof)
    } else {
        proof {
            lemma_cstr_end_bounds(d, pos);
        }
        let s = cstr_bytes(d, pos);
        let next = cstr_next(d, pos);
        match level {
            TreeLevel::Extension => if s.len() == 0 {
                Ok(found)
            } else {
                read_tree(d, tree_end, next, TreeLevel::Directory { ext: name_text(s) }, found)
            },
            TreeLevel::Directory { ext } => if s.len() == 0 || next >= tree_end {
                read_tree(d, tree_end, next, TreeLevel::Extension, found)
            } else {
                read_tree(d, tree_end, next, TreeLevel::File { ext, dir: name_text(s) }, found)
            },
            TreeLevel::File { ext, dir } => if s.len() == 0 || next >= tree_end {
                read_tree(d, tree_end, next, TreeLevel::Directory { ext }, found)
            } else {
                proof {
                    lemma_read_entry_advances(d, tree_end, next, ext, dir, name_text(s), found);
                }
                match read_entry_spec(d, tree_end, next, ext, dir, name_text(s), found) {
                    Err(e) => Err(e),
                    Ok((after, found2)) => read_tree(
                        d,
                        tree_end,
                        after,
                        TreeLevel::File { ext, dir },
                        found2,
                    ),
                }
            },
        }
    }
}

/// What reading a whole VPK file gives: the header is checked, then the
/// directory tree is read from its start.
pub open spec fn read_vpk(d: Seq<u8>) -> Result<VpkContents, VpkError> {
    if d.len() < 4 {
        Err(VpkError::UnexpectedEof)
    } else if le_u32(d, 0) != VPK_SIGNATURE {
        Err(VpkError::BadSignature(le_u32(d, 0)))
    } else if d.len() < 8 {
        Err(VpkError::UnexpectedEof)
    } else if le_u32(d, 4) != VPK_VERSION_V1 {
        Err(VpkError::UnsupportedVersion(le_u32(d, 4)))
    } else if d.len() < 12 {
        Err(VpkError::UnexpectedEof)
    } else {
        read_tree(
            d,
            12 + le_u32(d, 8),
            12,
            TreeLevel::Extension,
            VpkContents { mission: None, addoninfo: None },
        )
    }
}

/// The four little-endian bytes of `x`.
pub open spec fn u32_le_bytes(x: u32) -> Seq<u8> {
    seq![
        (x % 0x100) as u8,
        ((x / 0x100) % 0x100) as u8,
        ((x / 0x10000) % 0x100) as u8,
        (x / 0x1000000) as u8,
    ]
}

/// The two little-endian bytes of `x`.
pub open spec fn u16_le_bytes(x: u16) -> Seq<u8> {
    seq![(x % 0x100) as u8, (x / 0x100) as u8]
}

proof fn lemma_u32_le_bytes(x: u32)
    ensures
        le_u32(u32_le_bytes(x), 0) == x,
{
    let b = u32_le_bytes(x);
    assert((x % 0x100) as u8 as int + ((x / 0x100) % 0x100) as u8 as int * 0x100
        + ((x / 0x10000) % 0x100) as u8 as int * 0x10000 + (x / 0x1000000) as u8 as int
        * 0x1000000 == x) by (bit_vector);
}

proof fn lemma_u16_le_bytes(x: u16)
    ensures
        le_u16(u16_le_bytes(x), 0) == x,
{
    assert((x % 0x100) as u8 as int + (x / 0x100) as u8 as int * 0x100 == x) by (bit_vector);
}

/// Reading numbers inside a window `w` of `d` that starts at `off`.
proof fn lemma_le_window(d: Seq<u8>, off: int, w: Seq<u8>, k: int)
    requires
        0 <= off,
        0 <= k,
        off + w.len() <= d.len(),
        forall|j: int| 0 <= j < w.len() ==> #[trigger] d[off + j] == w[j],
    ensures
        k + 4 <= w.len() ==> le_u32(d, off + k) == le_u32(w, k),
        k + 2 <= w.len() ==> le_u16(d, off + k) == le_u16(w, k),
{
    if k + 2 <= w.len() {
        assert(d[off + k] == w[k]);
        assert(d[off + (k + 1)] == w[k + 1]);
    }
    if k + 4 <= w.len() {
        assert(d[off + (k + 2)] == w[k + 2]);
        assert(d[off + (k + 3)] == w[k + 3]);
    }
}

proof fn lemma_cstr_end_at(d: Seq<u8>, p: int, e: int)
    requires
        0 <= p <= e < d.len(),
        d[e] == 0,
        forall|k: int| p <= k < e ==> d[k] != 0,
    ensures
        cstr_end(d, p) == e,
        cstr_next(d, p) == e + 1,
        cstr_bytes(d, p) == d.subrange(p, e),
{
    lemma_cstr_end_bounds(d, p);
    let c = cstr_end(d, p);
    if c < e {
        assert(d[c] == 0);
    }
}

/// The bytes `txt`.
pub open spec fn txt_bytes() -> Seq<u8> {
    seq![0x74u8, 0x78u8, 0x74u8]
}

/// The bytes `missions`.
pub open spec fn missions_bytes() -> Seq<u8> {
    seq![0x6Du8, 0x69u8, 0x73u8, 0x73u8, 0x69u8, 0x6Fu8, 0x6Eu8, 0x73u8]
}

/// The directory entry of a file of `length` bytes stored right after the
/// tree: no CRC, no preload bytes, archive `0x7FFF`, offset 0.
pub open spec fn inline_entry(length: u32) -> Seq<u8> {
    u32_le_bytes(0) + u16_le_bytes(0) + u16_le_bytes(0x7FFF) + u32_le_bytes(0) + u32_le_bytes(
        length,
    ) + u16_le_bytes(0xFFFF)
}

proof fn lemma_inline_entry_fields(n: u32)
    ensures
        inline_entry(n).len() == 18,
        le_u16(inline_entry(n), 4) == 0,
        le_u16(inline_entry(n), 6) == 0x7FFF,
        le_u32(inline_entry(n), 8) == 0,
        le_u32(inline_entry(n), 12) == n,
        le_u16(inline_entry(n), 16) == 0xFFFF,
{
    let e = inline_entry(n);
    lemma_u16_le_bytes(0);
    lemma_u16_le_bytes(0x7FFF);
    lemma_u32_le_bytes(0);
    lemma_u32_le_bytes(n);
    lemma_u16_le_bytes(0xFFFF);
    lemma_le_window(e, 4, u16_le_bytes(0), 0);
    lemma_le_window(e, 6, u16_le_bytes(0x7FFF), 0);
    lemma_le_window(e, 8, u32_le_bytes(0), 0);
    lemma_le_window(e, 12, u32_le_bytes(n), 0);
    lemma_le_window(e, 16, u16_le_bytes(0xFFFF), 0);
}

/// The directory tree that lists one file, `missions/<name>.txt`, of
/// `length` bytes.
pub open spec fn single_mission_tree(name: Seq<u8>, length: u32) -> Seq<u8> {
    txt_bytes() + seq![0u8] + missions_bytes() + seq![0u8] + name + seq![0u8] + inline_entry(
        length,
    ) + seq![0u8, 0u8, 0u8]
}

proof fn lemma_single_mission_tree_layout(name: Seq<u8>, n: u32)
    ensures
        ({
            let t = single_mission_tree(name, n);
            let l = name.len() as int;
            &&& t.len() == l + 35
            &&& forall|i: int| 0 <= i < 3 ==> #[trigger] t[0 + i] == txt_bytes()[i]
            &&& t[3] == 0
            &&& forall|i: int| 0 <= i < 8 ==> #[trigger] t[4 + i] == missions_bytes()[i]
            &&& t[12] == 0
            &&& forall|i: int| 0 <= i < l ==> #[trigger] t[13 + i] == name[i]
            &&& t[13 + l] == 0
            &&& forall|i: int| 0 <= i < 18 ==> #[trigger] t[(14 + l) + i] == inline_entry(n)[i]
            &&& t[32 + l] == 0
            &&& t[33 + l] == 0
            &&& t[34 + l] == 0
        }),
{
    lemma_inline_entry_fields(n);
}

/// A VPK version 1 file whose tree lists one file, `missions/<name>.txt`,
/// with its bytes `text` stored right after the tree.
#[verifier::opaque]
pub open spec fn single_mission_vpk(name: Seq<u8>, text: Seq<u8>) -> Seq<u8> {
    let tree = single_mission_tree(name, text.len() as u32);
    u32_le_bytes(VPK_SIGNATURE) + u32_le_bytes(VPK_VERSION_V1) + u32_le_bytes(tree.len() as u32)
        + tree + text
}

proof fn lemma_single_mission_vpk_layout(name: Seq<u8>, text: Seq<u8>)
    requires
        name.len() + 35 <= u32::MAX,
    ensures
        ({
            let tree = single_mission_tree(name, text.len() as u32);
            let d = single_mission_vpk(name, text);
            &&& d.len() == 12 + tree.len() + text.len()
            &&& le_u32(d, 0) == VPK_SIGNATURE
            &&& le_u32(d, 4) == VPK_VERSION_V1
            &&& le_u32(d, 8) == tree.len()
            &&& forall|i: int| 0 <= i < tree.len() ==> #[trigger] d[12 + i] == tree[i]
            &&& forall|i: int| 0 <= i < text.len() ==> #[trigger] d[(12 + tree.len()) + i] == text[i]
        }),
{
    let tree = single_mission_tree(name, text.len() as u32);
    lemma_single_mission_tree_layout(name, text.len() as u32);
    let t = tree.len() as u32;
    let d = single_mission_vpk(name, text);
    reveal(single_mission_vpk);
    lemma_u32_le_bytes(VPK_SIGNATURE);
    lemma_u32_le_bytes(VPK_VERSION_V1);
    lemma_u32_le_bytes(t);
    lemma_le_window(d, 0, u32_le_bytes(VPK_SIGNATURE), 0);
    lemma_le_window(d, 4, u32_le_bytes(VPK_VERSION_V1), 0);
    lemma_le_window(d, 8, u32_le_bytes(t), 0);
}

/// The text that a file's bytes read as: `String::from_utf8_lossy` of them,
/// and nothing for no bytes.
pub open spec fn file_text(bytes: Seq<u8>) -> Seq<char> {
    if bytes.len() == 0 {
        Seq::empty()
    } else {
        utf8_lossy(bytes)
    }
}

proof fn lemma_walk_single_mission_tree(
    d: Seq<u8>,
    te: int,
    p: int,
    ext: Seq<char>,
    dir: Seq<char>,
    found: VpkContents,
)
    requires
        26 <= p,
        p + 21 <= te <= d.len(),
        cstr_bytes(d, 12).len() > 0,
        cstr_next(d, 12) == 16,
        name_text(cstr_bytes(d, 12)) == ext,
        cstr_bytes(d, 16).len() > 0,
        cstr_next(d, 16) == 25,
        name_text(cstr_bytes(d, 16)) == dir,
        cstr_bytes(d, 25).len() > 0,
        cstr_next(d, 25) == p,
        read_entry_spec(
            d,
            te,
            p,
            ext,
            dir,
            name_text(cstr_bytes(d, 25)),
            VpkContents { mission: None, addoninfo: None },
        ) == Ok::<(int, VpkContents), VpkError>((p + 18, found)),
        cstr_bytes(d, p + 18).len() == 0,
        cstr_next(d, p + 18) == p + 19,
        cstr_bytes(d, p + 19).len() == 0,
        cstr_next(d, p + 19) == p + 20,
        cstr_bytes(d, p + 20).len() == 0,
    ensures
        read_tree(d, te, 12, TreeLevel::Extension, VpkContents { mission: None, addoninfo: None })
            == Ok::<VpkContents, VpkError>(found),
{
    let none = VpkContents { mission: None, addoninfo: None };
    let at_end = read_tree(d, te, p + 20, TreeLevel::Extension, found);
    assert(at_end == Ok::<VpkContents, VpkError>(found));
    assert(read_tree(d, te, p + 19, TreeLevel::Directory { ext }, found) == at_end);
    assert(read_tree(d, te, p + 18, TreeLevel::File { ext, dir }, found) == at_end);
    assert(read_tree(d, te, 25, TreeLevel::File { ext, dir }, none) == at_end);
    assert(read_tree(d, te, 16, TreeLevel::Directory { ext }, none) == at_end);
}

proof fn lemma_single_mission_vpk_names(name: Seq<u8>, text: Seq<u8>)
    requires
        forall|i: int| 0 <= i < name.len() ==> name[i] != 0,
        name.len() + 35 <= u32::MAX,
    ensures
        ({
            let d = single_mission_vpk(name, text);
            let p = 26 + name.len() as int;
            &&& cstr_bytes(d, 12) == txt_bytes()
            &&& cstr_next(d, 12) == 16
            &&& cstr_bytes(d, 16) == missions_bytes()
            &&& cstr_next(d, 16) == 25
            &&& cstr_bytes(d, 25) == name
            &&& cstr_next(d, 25) == p
            &&& cstr_bytes(d, p + 18).len() == 0
            &&& cstr_next(d, p + 18) == p + 19
            &&& cstr_bytes(d, p + 19).len() == 0
            &&& cstr_next(d, p + 19) == p + 20
            &&& cstr_bytes(d, p + 20).len() == 0
        }),
{
    let n = text.len() as u32;
    let l = name.len() as int;
    let tree = single_mission_tree(name, n);
    let d = single_mission_vpk(name, text);
    lemma_single_mission_tree_layout(name, n);
    lemma_single_mission_vpk_layout(name, text);
    let p: int = 26 + l;
    assert(d[15] == 0 && d[24] == 0 && d[25 + l] == 0) by {
        assert(d[12int + 3int] == tree[3]);
        assert(d[12int + 12int] == tree[12]);
        assert(d[12 + (13 + l)] == tree[13 + l]);
    }
    assert(d.subrange(12, 15) == txt_bytes()) by {
        assert forall|i: int| 0 <= i < 3 implies d.subrange(12, 15)[i] == txt_bytes()[i] by {
            assert(d[12 + i] == tree[0 + i]);
        }
    }
    assert(d.subrange(16, 24) == missions_bytes()) by {
        assert forall|i: int| 0 <= i < 8 implies d.subrange(16, 24)[i] == missions_bytes()[i] by {
            assert(d[12 + (4 + i)] == tree[4 + i]);
        }
    }
    assert(d.subrange(25, 25 + l) == name) by {
        assert forall|i: int| 0 <= i < l implies d.subrange(25, 25 + l)[i] == name[i] by {
            assert(d[12 + (13 + i)] == tree[13 + i]);
        }
    }
    assert forall|k: int| 25 <= k < 25 + l implies d[k] != 0 by {
        assert(d[12 + (13 + (k - 25))] == tree[13 + (k - 25)]);
    }
    lemma_cstr_end_at(d, 12, 15);
    lemma_cstr_end_at(d, 16, 24);
    lemma_cstr_end_at(d, 25, 25 + l);
    assert(d[p + 18] == 0 && d[p + 19] == 0 && d[p + 20] == 0) by {
        assert(d[12 + (32 + l)] == tree[32 + l]);
        assert(d[12 + (33 + l)] == tree[33 + l]);
        assert(d[12 + (34 + l)] == tree[34 + l]);
    }
    lemma_cstr_end_at(d, p + 18, p + 18);
    lemma_cstr_end_at(d, p + 19, p + 19);
    lemma_cstr_end_at(d, p + 20, p + 20);
}

proof fn lemma_single_mission_vpk_entry(name: Seq<u8>, text: Seq<u8>)
    requires
        name.len() + 35 <= u32::MAX,
        text.len() <= u32::MAX,
    ensures
        ({
            let d = single_mission_vpk(name, text);
            let p = 26 + name.len() as int;
            let te = 47 + name.len() as int;
            &&& d.len() == te + text.len()
            &&& le_u32(d, 0) == VPK_SIGNATURE
            &&& le_u32(d, 4) == VPK_VERSION_V1
            &&& le_u32(d, 8) == 35 + name.len()
            &&& le_u16(d, p + 4) == 0
            &&& le_u16(d, p + 6) == 0x7FFF
            &&& le_u32(d, p + 8) == 0
            &&& le_u32(d, p + 12) == text.len()
            &&& le_u16(d, p + 16) == 0xFFFF
            &&& d.subrange(te, te + text.len() as int) == text
        }),
{
    let n = text.len() as u32;
    let l = name.len() as int;
    let tree = single_mission_tree(name, n);
    let entry = inline_entry(n);
    let d = single_mission_vpk(name, text);
    lemma_single_mission_tree_layout(name, n);
    lemma_single_mission_vpk_layout(name, text);
    lemma_inline_entry_fields(n);
    let te: int = 12 + tree.len() as int;
    let p: int = 26 + l;
    assert forall|j: int| 0 <= j < 18 implies #[trigger] d[p + j] == entry[j] by {
        assert(d[12 + ((14 + l) + j)] == tree[(14 + l) + j]);
    }
    lemma_le_window(d, p, entry, 4);
    lemma_le_window(d, p, entry, 6);
    lemma_le_window(d, p, entry, 8);
    lemma_le_window(d, p, entry, 12);
    lemma_le_window(d, p, entry, 16);
    assert(d.subrange(te, te + n) == text) by {
        assert forall|i: int| 0 <= i < n implies d.subrange(te, te + n)[i] == text[i] by {
            assert(d[te + i] == text[i]);
        }
    }
}

/// A VPK file laid out as the format describes, whose tree lists one mission
/// file `missions/<name>.txt` stored in the file itself, reads as that file's
/// text, with no `addoninfo.txt`.
pub proof fn lemma_single_mission_vpk_reads_back(name: Seq<u8>, text: Seq<u8>)
    requires
        name.len() > 0,
        forall|i: int| 0 <= i < name.len() ==> name[i] != 0,
        name.len() + 35 <= u32::MAX,
        text.len() <= u32::MAX,
    ensures
        read_vpk(single_mission_vpk(name, text)) == Ok::<VpkContents, VpkError>(
            VpkContents { mission: Some(file_text(text)), addoninfo: None },
        ),
{
    let n = text.len() as u32;
    let l = name.len() as int;
    let d = single_mission_vpk(name, text);
    lemma_single_mission_vpk_names(name, text);
    lemma_single_mission_vpk_entry(name, text);
    let te: int = 47 + l;
    let p: int = 26 + l;
    let ext = name_text(txt_bytes());
    let dir = name_text(missions_bytes());
    assert(ext == "txt"@) by {
        reveal_strlit("txt");
        assert(all_ascii(txt_bytes()));
    }
    assert(dir == "missions"@) by {
        reveal_strlit("missions");
        assert(all_ascii(missions_bytes()));
    }
    let found = VpkContents { mission: Some(file_text(text)), addoninfo: None };
    let none = VpkContents { mission: None, addoninfo: None };
    assert(entry_data(d, te, 0x7FFF, 0, n) == Ok::<Seq<char>, VpkError>(file_text(text)));
    assert(read_entry_spec(d, te, p, ext, dir, name_text(name), none) == Ok::<
        (int, VpkContents),
        VpkError,
    >((p + 18, found))) by {
        assert(is_mission_entry(ext, dir));
        assert(!is_addoninfo_entry(ext, dir, name_text(name)));
    }
    lemma_walk_single_mission_tree(d, te, p, ext, dir, found);
}

/// Only VPK version 1 files are read: a file whose first four bytes are not
/// the signature is refused with what they hold, and so is a version other
/// than 1.
pub proof fn lemma_header_checked(d: Seq<u8>)
    requires
        d.len() >= 8,
    ensures
        le_u32(d, 0) != VPK_SIGNATURE ==> read_vpk(d) == Err::<VpkContents, VpkError>(
            VpkError::BadSignature(le_u32(d, 0)),
        ),
        le_u32(d, 0) == VPK_SIGNATURE && le_u32(d, 4) != VPK_VERSION_V1 ==> read_vpk(d) == Err::<
            VpkContents,
            VpkError,
        >(VpkError::UnsupportedVersion(le_u32(d, 4))),
{
}

/// A `String`'s view, for optional texts.
pub open spec fn opt_view(o: Option<String>) -> Option<Seq<char>> {
    match o {
        Some(s) => Some(s@),
        None => None,
    }
}

/// The mission file and `addoninfo.txt` found in a VPK file.
#[derive(Debug)]
pub struct VPKInfo {
    mission_content: Option<String>,
    addoninfo_content: Option<String>,
}

impl View for VPKInfo {
    type V = VpkContents;

    closed spec fn view(&self) -> VpkContents {
        VpkContents {
            mission: opt_view(self.mission_content),
            addoninfo: opt_view(self.addoninfo_content),
        }
    }
}

impl VPKInfo {
    /// Reads the header and directory tree of the VPK file `data` and the
    /// text of its first mission file and its `addoninfo.txt`.
    pub fn new(data: &[u8]) -> (res: Result<VPKInfo, VpkError>)
        ensures
            match (res, read_vpk(data@)) {
                (Ok(info), Ok(contents)) => info@ == contents,
                (Err(e), Err(f)) => e == f,
                _ => false,
            },
    {
        // Parse header
        let sig = read_u32(data, 0)?;
        if sig != VPK_SIGNATURE {
            return Err(VpkError::BadSignature(sig));
        }
        let version = read_u32(data, 4)?;
        if version != VPK_VERSION_V1 {
            return Err(VpkError::UnsupportedVersion(version));
        }
        let tree_size = read_u32(data, 8)?;
        let tree_end: u64 = VPK_HEADER_LEN as u64 + tree_size as u64;
        let len = data.len();
        let ghost d = data@;
        let ghost te = tree_end as int;
        let ghost total = read_vpk(d);

        // Parse tree: extension → directory → filename → entry
        let mut info = VPKInfo { mission_content: None, addoninfo_content: None };
        let mut pos: usize = VPK_HEADER_LEN;

        loop
            invariant_except_break
                read_tree(d, te, pos as int, TreeLevel::Extension, info@) == total,
            invariant
                d == data@,
                len == d.len(),
                te == tree_end,
                te <= 12 + u32::MAX,
                pos <= len,
                total == read_vpk(d),
            ensures
                total == Ok::<VpkContents, VpkError>(info@),
            decreases len - pos,
        {
            let ghost p0 = pos;
            proof {
                lemma_cstr_end_bounds(d, pos as int);
            }
            let ext_empty = pos >= len || data[pos] == 0;
            let (extension, next) = read_string_lossy(data, pos);
            pos = next;
            if ext_empty {
                break;
            }
            let ghost ext = extension@;

            loop
                invariant_except_break
                    read_tree(d, te, pos as int, TreeLevel::Directory { ext }, info@) == total,
                invariant
                    d == data@,
                    len == d.len(),
                    te == tree_end,
                    te <= 12 + u32::MAX,
                    p0 < pos <= len,
                    ext == extension@,
                    total == read_vpk(d),
                ensures
                    read_tree(d, te, pos as int, TreeLevel::Extension, info@) == total,
                decreases len - pos,
            {
                let ghost p1 = pos;
                proof {
                    lemma_cstr_end_bounds(d, pos as int);
                }
                let dir_empty = pos >= len || data[pos] == 0;
                let (directory, next) = read_string_lossy(data, pos);
                pos = next;
                if dir_empty || pos as u64 >= tree_end {
                    break;
                }
                let ghost dir = directory@;

                loop
                    invariant_except_break
                        read_tree(d, te, pos as int, TreeLevel::File { ext, dir }, info@) == total,
                    invariant
                        d == data@,
                        len == d.len(),
                        te == tree_end,
                        te <= 12 + u32::MAX,
                        p1 < pos <= len,
                        ext == extension@,
                        dir == directory@,
                        total == read_vpk(d),
                    ensures
                        read_tree(d, te, pos as int, TreeLevel::Directory { ext }, info@) == total,
                    decreases len - pos,
                {
                    proof {
                        lemma_cstr_end_bounds(d, pos as int);
                    }
                    let name_empty = pos >= len || data[pos] == 0;
                    let (filename, next) = read_string_lossy(data, pos);
                    pos = next;
                    if name_empty || pos as u64 >= tree_end {
                        break;
                    }
                    pos = info.read_entry(data, tree_end, pos, &extension, &directory, &filename)?;
                }
            }
        }

        Ok(info)
    }

    /// Reads the directory entry at `pos` of the file `filename` in
    /// `directory` of `extension`, skips its preload bytes and, for the first
    /// mission file and the first `addoninfo.txt`, reads the file's text.
    /// Returns the position after the entry.
    fn read_entry(
        &mut self,
        data: &[u8],
        tree_end: u64,
        pos: usize,
        extension: &String,
        directory: &String,
        filename: &String,
    ) -> (res: Result<usize, VpkError>)
        requires
            tree_end <= 12 + u32::MAX,
            pos <= data@.len(),
        ensures
            match (
                res,
                read_entry_spec(
                    data@,
                    tree_end as int,
                    pos as int,
                    extension@,
                    directory@,
                    filename@,
                    old(self)@,
                ),
            ) {
                (Ok(after), Ok((a, f))) => after == a && final(self)@ == f,
                (Err(e), Err(f)) => e == f,
                _ => false,
            },
    {
        // Read VPKDirectoryEntry (18 bytes)
        if data.len() - pos < VPK_ENTRY_LEN {
            return Err(VpkError::UnexpectedEof);
        }
        let _crc = read_u32(data, pos)?;
        let preload_length = read_u16(data, pos + 4)?;
        let archive_index = read_u16(data, pos + 6)?;
        let entry_offset = read_u32(data, pos + 8)?;
        let entry_length = read_u32(data, pos + 12)?;
        let terminator = read_u16(data, pos + 16)?;

        if terminator != VPK_ENTRY_TERMINATOR {
            return Err(VpkError::BadTerminator);
        }
        let mut after = pos + VPK_ENTRY_LEN;

        // Skip preload data inline in the tree
        if preload_length > 0 {
            if data.len() - after < preload_length as usize {
                return Err(VpkError::UnexpectedEof);
            }
            after = after + preload_length as usize;
        }

        // Check if this is a mission file or addoninfo
        let is_txt = eq_ignore_ascii_case_exec(extension, "txt");
        let is_mission = is_txt && eq_ignore_ascii_case_exec(directory, "missions");
        let is_addoninfo = is_txt && directory.as_str().is_empty()
            && eq_ignore_ascii_case_exec(filename, "addoninfo");

        if self.mission_content.is_none() && is_mission {
            let text = read_file_data(
                data,
                tree_end,
                archive_index,
                entry_offset,
                entry_length,
                preload_length,
            )?;
            self.mission_content = Some(text);
        }
        if self.addoninfo_content.is_none() && is_addoninfo {
            let text = read_file_data(
                data,
                tree_end,
                archive_index,
                entry_offset,
                entry_length,
                preload_length,
            )?;
            self.addoninfo_content = Some(text);
        }
        Ok(after)
    }

    /// The text of the mission file, or `NoMission` when the file has none.
    pub fn get_mission(&self) -> (res: Result<String, VpkError>)
        ensures
            match self@.mission {
                Some(text) => res matches Ok(s) && s@ == text,
                None => res == Err::<String, VpkError>(VpkError::NoMission),
            },
    {
        match &self.mission_content {
            Some(s) => Ok(s.clone()),
            None => Err(VpkError::NoMission),
        }
    }

    /// The text of `addoninfo.txt`, or `NoAddonInfo` when the file has none.
    pub fn get_addoninfo(&self) -> (res: Result<String, VpkError>)
        ensures
            match self@.addoninfo {
                Some(text) => res matches Ok(s) && s@ == text,
                None => res == Err::<String, VpkError>(VpkError::NoAddonInfo),
            },
    {
        match &self.addoninfo_content {
            Some(s) => Ok(s.clone()),
            None => Err(VpkError::NoAddonInfo),
        }
    }
}

/// ASCII lower case of a character, as a number.
fn ascii_lower_exec(c: char) -> (r: u32)
    ensures
        r == ascii_lower(c),
{
    if 'A' <= c && c <= 'Z' {
        c as u32 + 32
    } else {
        c as u32
    }
}

/// Whether `a` equals the text `lit` up to ASCII case.
fn eq_ignore_ascii_case_exec(a: &String, lit: &str) -> (r: bool)
    ensures
        r == eq_ignore_ascii_case(a@, lit@),
{
    let n = a.as_str().unicode_len();
    let m = lit.unicode_len();
    if n != m {
        return false;
    }
    let mut i: usize = 0;
    while i < n
        invariant
            n == a@.len(),
            m == lit@.len(),
            n == m,
            i <= n,
            forall|k: int| 0 <= k < i ==> ascii_lower(a@[k]) == ascii_lower(lit@[k]),
        decreases n - i,
    {
        if ascii_lower_exec(a.as_str().get_char(i)) != ascii_lower_exec(lit.get_char(i)) {
            return false;
        }
        i += 1;
    }
    true
}

/// Reads the text of a file's data (see `entry_data`).
fn read_file_data(
    data: &[u8],
    tree_end: u64,
    archive_index: u16,
    entry_offset: u32,
    entry_length: u32,
    _preload_length: u16,
) -> (res: Result<String, VpkError>)
    requires
        tree_end <= 12 + u32::MAX,
    ensures
        match (res, entry_data(data@, tree_end as int, archive_index, entry_offset, entry_length)) {
            (Ok(s), Ok(text)) => s@ == text,
            (Err(e), Err(f)) => e == f,
            _ => false,
        },
{
    if entry_length == 0 {
        return Ok(String::new());
    }
    if !(archive_index == 0x7FFF || archive_index == 0xFF7F || archive_index == 0) {
        return Err(VpkError::MultiArchive(archive_index));
    }
    // Data follows the directory tree in the same file
    let data_offset: u64 = tree_end + entry_offset as u64;
    let end: u64 = data_offset + entry_length as u64;
    if end > data.len() as u64 {
        return Err(VpkError::DataOutOfRange);
    }
    let bytes = &data[data_offset as usize..end as usize];
    Ok(lossy_string(bytes))
}

/// The little-endian `u32` at `pos`.
fn read_u32(data: &[u8], pos: usize) -> (res: Result<u32, VpkError>)
    ensures
        pos + 4 <= data@.len() ==> res == Ok::<u32, VpkError>(le_u32(data@, pos as int)),
        pos + 4 > data@.len() ==> res == Err::<u32, VpkError>(VpkError::UnexpectedEof),
{
    if pos > data.len() || data.len() - pos < 4 {
        return Err(VpkError::UnexpectedEof);
    }
    let v: u32 = data[pos] as u32 + data[pos + 1] as u32 * 0x100 + data[pos + 2] as u32 * 0x10000
        + data[pos + 3] as u32 * 0x1000000;
    Ok(v)
}

/// The little-endian `u16` at `pos`.
fn read_u16(data: &[u8], pos: usize) -> (res: Result<u16, VpkError>)
    ensures
        pos + 2 <= data@.len() ==> res == Ok::<u16, VpkError>(le_u16(data@, pos as int)),
        pos + 2 > data@.len() ==> res == Err::<u16, VpkError>(VpkError::UnexpectedEof),
{
    if pos > data.len() || data.len() - pos < 2 {
        return Err(VpkError::UnexpectedEof);
    }
    let v: u16 = data[pos] as u16 + data[pos + 1] as u16 * 0x100;
    Ok(v)
}

/// The zero-terminated string at `pos`, decoded, with the position just past
/// it.
fn read_string_lossy(data: &[u8], pos: usize) -> (res: (String, usize))
    requires
        pos <= data@.len(),
    ensures
        res.0@ == name_text(cstr_bytes(data@, pos as int)),
        res.1 == cstr_next(data@, pos as int),
{
    let len = data.len();
    let mut end = pos;
    while end < len && data[end] != 0
        invariant
            pos <= end <= len,
            len == data@.len(),
            cstr_end(data@, end as int) == cstr_end(data@, pos as int),
        decreases len - end,
    {
        end += 1;
    }
    let s = lossy_string(&data[pos..end]);
    let next = if end < len {
        end + 1
    } else {
        end
    };
    (s, next)
}

} // verus!
