//! Storage reporting: which mounted filesystems count, how full they are, and
//! in which order they are listed.

use vstd::prelude::*;
use vstd::utf8::{encode_scalar, encode_utf8, encode_utf8_decode_utf8, encode_utf8_valid_utf8};

use crate::order::{arranged, indices, is_order, is_ranking, lemma_text_order, ranked, slot};
use crate::order::{comes_before, lemma_text_irreflexive, ranked_is_a_ranking, text_less};
use crate::scan::{begins, lines, lines_of, starts_with, words, words_of};
use crate::text::{byte_len, bytes_in, lossy, lossy_of, same, texts};

verus! {

/// What the system says of the blocks of a filesystem.
#[derive(Debug, Clone, Copy)]
pub struct Statvfs {
    /// The size of a block in bytes.
    pub frsize: u64,
    pub blocks: u64,
    pub bfree: u64,
    /// The blocks that unprivileged users may take.
    pub bavail: u64,
}

/// One mounted filesystem's capacity.
#[derive(Debug, Clone, PartialEq, Eq)]
pub struct Filesystem {
    pub mount: String,
    pub device: String,
    pub fstype: String,
    pub total_kb: u64,
    /// Free to unprivileged users.
    pub avail_kb: u64,
    pub used_pct: u8,
}

#[verifier::ext_equal]
pub struct FsView {
    pub mount: Seq<char>,
    pub device: Seq<char>,
    pub fstype: Seq<char>,
    pub total_kb: u64,
    pub avail_kb: u64,
    pub used_pct: u8,
}

impl View for Filesystem {
    type V = FsView;

    open spec fn view(&self) -> FsView {
        FsView {
            mount: self.mount@,
            device: self.device@,
            fstype: self.fstype@,
            total_kb: self.total_kb,
            avail_kb: self.avail_kb,
            used_pct: self.used_pct,
        }
    }
}

impl Filesystem {
    pub fn copy(&self) -> (r: Filesystem)
        ensures
            r@ == self@,
    {
        Filesystem {
            mount: self.mount.clone(),
            device: self.device.clone(),
            fstype: self.fstype.clone(),
            total_kb: self.total_kb,
            avail_kb: self.avail_kb,
            used_pct: self.used_pct,
        }
    }
}

/// What a list of filesystems says.
pub open spec fn fs_views(v: Seq<Filesystem>) -> Seq<FsView> {
    v.map_values(|f: Filesystem| f@)
}

// ------------------------------------------------------------ the mount table

pub open spec fn is_octal(b: u8) -> bool {
    0x30 <= b <= 0x37
}

/// Whether an escaped byte begins a text: a backslash and three octal digits.
pub open spec fn escape_at(b: Seq<u8>) -> bool {
    b.len() >= 4 && b[0] == 0x5c && is_octal(b[1]) && is_octal(b[2]) && is_octal(b[3])
}

/// The number that the three digits of an escape denote.
pub open spec fn escape_value(b: Seq<u8>) -> int {
    (b[1] - 0x30) * 64 + (b[2] - 0x30) * 8 + (b[3] - 0x30)
}

/// Whether every escape of a text denotes a byte.
pub open spec fn escapes_fit(b: Seq<u8>) -> bool
    decreases b.len(),
{
    if b.len() == 0 {
        true
    } else if escape_at(b) {
        escape_value(b) <= 255 && escapes_fit(b.skip(4))
    } else {
        escapes_fit(b.drop_first())
    }
}

/// The bytes with each escape replaced by the byte that it denotes.
pub open spec fn unescaped(b: Seq<u8>) -> Seq<u8>
    decreases b.len(),
{
    if b.len() == 0 {
        Seq::empty()
    } else if escape_at(b) {
        seq![escape_value(b) as u8] + unescaped(b.skip(4))
    } else {
        seq![b[0]] + unescaped(b.drop_first())
    }
}

/// A character as the kernel writes it in a mount path.
pub open spec fn kernel_char(c: char) -> Seq<char> {
    if c == ' ' {
        seq!['\\', '0', '4', '0']
    } else if c == '\t' {
        seq!['\\', '0', '1', '1']
    } else if c == '\n' {
        seq!['\\', '0', '1', '2']
    } else if c == '\\' {
        seq!['\\', '1', '3', '4']
    } else {
        seq![c]
    }
}

/// A path as the kernel writes it.
pub open spec fn kernel_text(s: Seq<char>) -> Seq<char>
    decreases s.len(),
{
    if s.len() == 0 {
        Seq::empty()
    } else {
        kernel_char(s[0]) + kernel_text(s.drop_first())
    }
}

/// No byte of a character but the backslash is that of a backslash.
proof fn lemma_no_backslash(c: char)
    requires
        c != '\\',
    ensures
        forall|i: int|
            0 <= i < encode_scalar(c as u32).len() ==> #[trigger] encode_scalar(c as u32)[i]
                != 0x5c,
{
    let u = c as u32;
    assert(u <= 0x7F && u != 0x5c ==> (u & 0x7F) as u8 != 0x5c) by (bit_vector);
    assert(0xC0 | ((u >> 6) & 0x1F) as u8 >= 0x80) by (bit_vector);
    assert(0xE0 | ((u >> 12) & 0x0F) as u8 >= 0x80) by (bit_vector);
    assert(0xF0 | ((u >> 18) & 0x7) as u8 >= 0x80) by (bit_vector);
    assert(0x80 | (u & 0x3F) as u8 >= 0x80) by (bit_vector);
    assert(0x80 | ((u >> 6) & 0x3F) as u8 >= 0x80) by (bit_vector);
    assert(0x80 | ((u >> 12) & 0x3F) as u8 >= 0x80) by (bit_vector);
}

/// Bytes without a backslash are passed on as they are.
proof fn lemma_passed_on(x: Seq<u8>, tail: Seq<u8>)
    requires
        forall|i: int| 0 <= i < x.len() ==> (#[trigger] x[i]) != 0x5c,
    ensures
        unescaped(x + tail) == x + unescaped(tail),
        escapes_fit(x + tail) == escapes_fit(tail),
    decreases x.len(),
{
    if x.len() == 0 {
        assert(x + tail =~= tail);
        assert(x + unescaped(tail) =~= unescaped(tail));
    } else {
        let rest = x.drop_first();
        assert forall|i: int| 0 <= i < rest.len() implies (#[trigger] rest[i]) != 0x5c by {
            assert(rest[i] == x[i + 1]);
        }
        lemma_passed_on(rest, tail);
        assert((x + tail).drop_first() =~= rest + tail);
        assert((x + tail)[0] == x[0]);
        assert(seq![x[0]] + (rest + unescaped(tail)) =~= x + unescaped(tail));
    }
}

/// The bytes of four ASCII characters in front of a text.
proof fn lemma_four(a: char, b: char, c: char, d: char, tail: Seq<char>)
    requires
        a as u32 <= 0x7F,
        b as u32 <= 0x7F,
        c as u32 <= 0x7F,
        d as u32 <= 0x7F,
    ensures
        encode_utf8(seq![a, b, c, d] + tail) == seq![a as u8, b as u8, c as u8, d as u8]
            + encode_utf8(tail),
{
    lemma_one(d, tail);
    lemma_one(c, seq![d] + tail);
    lemma_one(b, seq![c, d] + tail);
    lemma_one(a, seq![b, c, d] + tail);
    assert(seq![c] + (seq![d] + tail) =~= seq![c, d] + tail);
    assert(seq![b] + (seq![c, d] + tail) =~= seq![b, c, d] + tail);
    assert(seq![a] + (seq![b, c, d] + tail) =~= seq![a, b, c, d] + tail);
    assert(encode_utf8(seq![a, b, c, d] + tail) =~= seq![a as u8, b as u8, c as u8, d as u8]
        + encode_utf8(tail));
}

proof fn lemma_one(a: char, tail: Seq<char>)
    requires
        a as u32 <= 0x7F,
    ensures
        encode_utf8(seq![a] + tail) == seq![a as u8] + encode_utf8(tail),
{
    let u = a as u32;
    assert(u <= 0x7F ==> (u & 0x7F) as u8 == u as u8) by (bit_vector);
    assert((seq![a] + tail).drop_first() =~= tail);
}

/// The kernel's escapes are undone: of a path as the kernel writes it, every
/// escape denotes a byte, and the bytes left are those of the path itself.
pub proof fn escapes_are_undone(s: Seq<char>)
    ensures
        escapes_fit(encode_utf8(kernel_text(s))),
        unescaped(encode_utf8(kernel_text(s))) == encode_utf8(s),
    decreases s.len(),
{
    if s.len() > 0 {
        let c = s[0];
        let tail = kernel_text(s.drop_first());
        escapes_are_undone(s.drop_first());
        assert(seq![c] + s.drop_first() =~= s);
        let all = encode_utf8(kernel_text(s));
        if c == ' ' || c == '\t' || c == '\n' || c == '\\' {
            let k = kernel_char(c);
            lemma_four(k[0], k[1], k[2], k[3], tail);
            assert(k =~= seq![k[0], k[1], k[2], k[3]]);
            assert(all.skip(4) =~= encode_utf8(tail));
            assert(escape_at(all));
            assert(escape_value(all) == c as int);
            lemma_one(c, s.drop_first());
        } else {
            assert((seq![c] + tail).drop_first() =~= tail);
            lemma_no_backslash(c);
            lemma_passed_on(encode_scalar(c as u32), encode_utf8(tail));
        }
    }
}

fn octal(b: u8) -> (r: bool)
    ensures
        r == is_octal(b),
{
    0x30 <= b && b <= 0x37
}

/// Whether every escape of a mount path denotes a byte.
pub fn path_fits(s: &str) -> (r: bool)
    ensures
        r == escapes_fit(encode_utf8(s@)),
{
    let b: &[u8] = s.as_bytes();
    let n: usize = b.len();
    let mut i: usize = 0;
    assert(b@.skip(0) =~= b@);
    while i < n
        invariant
            i <= n,
            n == b@.len(),
            b@ == encode_utf8(s@),
            escapes_fit(encode_utf8(s@)) == escapes_fit(b@.skip(i as int)),
        decreases n - i,
    {
        let ghost rest = b@.skip(i as int);
        if b[i] == 0x5c && n - i > 3 && octal(b[i + 1]) && octal(b[i + 2]) && octal(b[i + 3]) {
            assert(rest.skip(4) =~= b@.skip(i as int + 4));
            if b[i + 1] > 0x33 {
                return false;
            }
            i = i + 4;
        } else {
            assert(rest.drop_first() =~= b@.skip(i as int + 1));
            i = i + 1;
        }
    }
    true
}

/// The kernel escapes blanks, tabs, line ends and backslashes in mount paths
/// as a backslash and three octal digits. Of a path as the kernel writes it,
/// the path itself comes back.
pub fn unescape(s: &str) -> (r: String)
    requires
        escapes_fit(encode_utf8(s@)),
    ensures
        r@ == lossy_of(unescaped(encode_utf8(s@))),
        forall|path: Seq<char>| s@ == #[trigger] kernel_text(path) ==> r@ == path,
{
    let b: &[u8] = s.as_bytes();
    let n: usize = b.len();
    let mut out: Vec<u8> = Vec::new();
    let mut i: usize = 0;
    assert(b@.skip(0) =~= b@);
    assert(out@ + unescaped(b@) =~= unescaped(b@));
    while i < n
        invariant
            i <= n,
            n == b@.len(),
            b@ == encode_utf8(s@),
            escapes_fit(b@.skip(i as int)),
            out@ + unescaped(b@.skip(i as int)) == unescaped(encode_utf8(s@)),
        decreases n - i,
    {
        let ghost rest = b@.skip(i as int);
        let ghost before = out@;
        if b[i] == 0x5c && n - i > 3 && octal(b[i + 1]) && octal(b[i + 2]) && octal(b[i + 3]) {
            assert(rest.skip(4) =~= b@.skip(i as int + 4));
            let x: u8 = (b[i + 1] - 0x30) * 64 + (b[i + 2] - 0x30) * 8 + (b[i + 3] - 0x30);
            out.push(x);
            assert(out@ + unescaped(rest.skip(4)) =~= before + (seq![x] + unescaped(
                rest.skip(4),
            )));
            i = i + 4;
        } else {
            assert(rest.drop_first() =~= b@.skip(i as int + 1));
            out.push(b[i]);
            assert(out@ + unescaped(rest.drop_first()) =~= before + (seq![b@[i as int]]
                + unescaped(rest.drop_first())));
            i = i + 1;
        }
    }
    assert(b@.skip(i as int) =~= Seq::empty());
    assert(out@ =~= unescaped(encode_utf8(s@)));
    let r: String = lossy(&out);
    proof {
        assert forall|path: Seq<char>| s@ == #[trigger] kernel_text(path) implies r@ == path by {
            escapes_are_undone(path);
            encode_utf8_valid_utf8(path);
            encode_utf8_decode_utf8(path);
            encode_utf8_decode_utf8(r@);
        }
    }
    r
}

/// A device, where it is mounted, and the kind of filesystem.
pub type MountView = (Seq<char>, Seq<char>, Seq<char>);

/// What a line of the mount table says: nothing where it has too few fields.
pub open spec fn mount_of(line: Seq<char>) -> Option<MountView> {
    let w = words_of(line);
    if w.len() < 3 {
        None
    } else {
        Some((w[0], lossy_of(unescaped(encode_utf8(w[1]))), w[2]))
    }
}

/// Whether the mount path of a line can be read.
pub open spec fn line_fits(line: Seq<char>) -> bool {
    words_of(line).len() < 3 || escapes_fit(encode_utf8(words_of(line)[1]))
}

/// Whether the mount paths of a table can be read.
pub open spec fn table_fits(text: Seq<char>) -> bool {
    forall|i: int| 0 <= i < lines_of(text).len() ==> line_fits(#[trigger] lines_of(text)[i])
}

/// What the lines of the mount table say.
pub open spec fn mounts_of(list: Seq<Seq<char>>) -> Seq<MountView>
    decreases list.len(),
{
    if list.len() == 0 {
        Seq::empty()
    } else {
        let before = mounts_of(list.drop_last());
        match mount_of(list.last()) {
            Some(m) => before.push(m),
            None => before,
        }
    }
}

pub open spec fn mount_view(m: (String, String, String)) -> MountView {
    (m.0@, m.1@, m.2@)
}

pub open spec fn mount_views(v: Seq<(String, String, String)>) -> Seq<MountView> {
    v.map_values(|m: (String, String, String)| mount_view(m))
}

/// Whether the mount paths of a table can be read.
pub fn mounts_fit(s: &str) -> (r: bool)
    ensures
        r == table_fits(s@),
{
    let all: Vec<String> = lines(s);
    let ghost list = lines_of(s@);
    let mut i: usize = 0;
    while i < all.len()
        invariant
            i <= all.len(),
            list == texts(all@),
            list == lines_of(s@),
            forall|j: int| 0 <= j < i ==> line_fits(#[trigger] list[j]),
        decreases all.len() - i,
    {
        assert(list[i as int] == all@[i as int]@);
        let w: Vec<String> = words(all[i].as_str());
        assert(texts(w@).len() == w@.len());
        if w.len() >= 3 {
            assert(texts(w@)[1] == w@[1]@);
            if !path_fits(w[1].as_str()) {
                assert(!line_fits(list[i as int]));
                return false;
            }
        }
        i = i + 1;
    }
    assert(list.len() == all@.len());
    true
}

/// Parse the mount table into device, mount and kind of filesystem.
pub fn parse_mounts(s: &str) -> (r: Vec<(String, String, String)>)
    requires
        table_fits(s@),
    ensures
        mount_views(r@) == mounts_of(lines_of(s@)),
{
    let all: Vec<String> = lines(s);
    let ghost list = lines_of(s@);
    let mut out: Vec<(String, String, String)> = Vec::new();
    let mut i: usize = 0;
    assert(mount_views(out@) =~= mounts_of(list.take(0)));
    while i < all.len()
        invariant
            i <= all.len(),
            list == texts(all@),
            forall|j: int| 0 <= j < list.len() ==> line_fits(#[trigger] list[j]),
            mount_views(out@) == mounts_of(list.take(i as int)),
        decreases all.len() - i,
    {
        let ghost before = mount_views(out@);
        proof {
            assert(list[i as int] == all@[i as int]@);
            assert(list.take(i as int + 1).drop_last() =~= list.take(i as int));
            assert(list.take(i as int + 1).last() == list[i as int]);
            assert(line_fits(list[i as int]));
        }
        let w: Vec<String> = words(all[i].as_str());
        assert(texts(w@).len() == w@.len());
        if w.len() >= 3 {
            assert(texts(w@)[0] == w@[0]@ && texts(w@)[1] == w@[1]@ && texts(w@)[2] == w@[2]@);
            let m: (String, String, String) = (
                w[0].clone(),
                unescape(w[1].as_str()),
                w[2].clone(),
            );
            out.push(m);
            assert(mount_views(out@) =~= before.push(mount_view(m)));
        }
        i = i + 1;
    }
    assert(list.take(i as int) =~= list);
    out
}

/// Whether a kind of filesystem reports blocks but holds no capacity.
pub open spec fn is_pseudo(fstype: Seq<char>) -> bool {
    fstype == "bpf"@ || fstype == "configfs"@ || fstype == "debugfs"@ || fstype == "efivarfs"@
        || fstype == "fusectl"@ || fstype == "hugetlbfs"@ || fstype == "mqueue"@ || fstype
        == "pstore"@ || fstype == "rpc_pipefs"@ || fstype == "securityfs"@ || fstype == "tracefs"@
}

/// Whether a mount counts: loop devices, overlays and the filesystems without
/// capacity are noise in a pressure report.
pub open spec fn counts(device: Seq<char>, fstype: Seq<char>) -> bool {
    !begins(device, "/dev/loop"@) && fstype != "overlay"@ && !is_pseudo(fstype)
}

pub fn keep(device: &str, fstype: &str) -> (r: bool)
    ensures
        r == counts(device@, fstype@),
{
    let pseudo: bool = same(fstype, "bpf") || same(fstype, "configfs") || same(fstype, "debugfs")
        || same(fstype, "efivarfs") || same(fstype, "fusectl") || same(fstype, "hugetlbfs")
        || same(fstype, "mqueue") || same(fstype, "pstore") || same(fstype, "rpc_pipefs")
        || same(fstype, "securityfs") || same(fstype, "tracefs");
    !starts_with(device, "/dev/loop") && !same(fstype, "overlay") && !pseudo
}

/// The mounts that count.
pub open spec fn counted(list: Seq<MountView>) -> Seq<MountView> {
    list.filter(|m: MountView| counts(m.0, m.2))
}

/// The mounts of a table whose capacity is to be asked for.
pub fn mounts_to_measure(s: &str) -> (r: Vec<(String, String, String)>)
    requires
        table_fits(s@),
    ensures
        mount_views(r@) == counted(mounts_of(lines_of(s@))),
{
    broadcast use vstd::seq_lib::group_filter_ensures;

    let all: Vec<(String, String, String)> = parse_mounts(s);
    let ghost list = mount_views(all@);
    let ghost pred = |m: MountView| counts(m.0, m.2);
    let mut out: Vec<(String, String, String)> = Vec::new();
    let mut i: usize = 0;
    assert(list.take(0) =~= Seq::empty());
    assert(list.take(0).filter(pred) =~= Seq::empty()) by {
        reveal(Seq::filter);
    }
    assert(mount_views(out@) =~= Seq::empty());
    while i < all.len()
        invariant
            i <= all.len(),
            list == mount_views(all@),
            pred == (|m: MountView| counts(m.0, m.2)),
            mount_views(out@) == list.take(i as int).filter(pred),
        decreases all.len() - i,
    {
        let ghost before = mount_views(out@);
        proof {
            let now = list.take(i as int + 1);
            assert(now.drop_last() =~= list.take(i as int));
            assert(now.last() == mount_view(all@[i as int]));
            reveal(Seq::filter);
        }
        if keep(all[i].0.as_str(), all[i].2.as_str()) {
            let m: (String, String, String) = (
                all[i].0.clone(),
                all[i].1.clone(),
                all[i].2.clone(),
            );
            out.push(m);
            assert(mount_views(out@) =~= before.push(mount_view(m)));
        }
        i = i + 1;
    }
    assert(list.take(i as int) =~= list);
    out
}

/// The same of any table, and nothing where a mount path of it cannot be read.
pub fn mounts_found(s: &str) -> (r: Option<Vec<(String, String, String)>>)
    ensures
        r is Some <==> table_fits(s@),
        r matches Some(v) ==> mount_views(v@) == counted(mounts_of(lines_of(s@))),
{
    if mounts_fit(s) {
        Some(mounts_to_measure(s))
    } else {
        None
    }
}

// ------------------------------------------------------------ capacity

/// The share of the blocks that are used, as `df` counts it: reserved blocks
/// count as used, so a filesystem can be full while root still has space.
pub open spec fn used_share(blocks: u64, bfree: u64, bavail: u64) -> int {
    let used = if blocks >= bfree {
        blocks - bfree
    } else {
        0
    };
    let denom = if used + bavail > u64::MAX {
        u64::MAX as int
    } else {
        used + bavail
    };
    if denom == 0 {
        0
    } else if used * 100 / denom > 100 {
        100
    } else {
        used * 100 / denom
    }
}

pub fn calc_used_pct(blocks: u64, bfree: u64, bavail: u64) -> (r: u8)
    ensures
        r == used_share(blocks, bfree, bavail),
        r <= 100,
{
    let used: u64 = if blocks >= bfree {
        blocks - bfree
    } else {
        0
    };
    let sum: u128 = used as u128 + bavail as u128;
    let denom: u128 = if sum > u64::MAX as u128 {
        u64::MAX as u128
    } else {
        sum
    };
    if denom == 0 {
        return 0;
    }
    let share: u128 = used as u128 * 100 / denom;
    if share > 100 {
        100
    } else {
        share as u8
    }
}

/// A number of blocks in kilobytes.
pub open spec fn in_kb(count: u64, frsize: u64) -> int {
    let kb = count * frsize / 1024;
    if kb > u64::MAX {
        u64::MAX as int
    } else {
        kb
    }
}

pub fn to_kb(count: u64, frsize: u64) -> (r: u64)
    ensures
        r == in_kb(count, frsize),
{
    assert(count as u128 * frsize as u128 <= u128::MAX) by (nonlinear_arith)
        requires
            count <= u64::MAX,
            frsize <= u64::MAX,
    ;
    let kb: u128 = (count as u128 * frsize as u128) / 1024;
    if kb > u64::MAX as u128 {
        u64::MAX
    } else {
        kb as u64
    }
}

/// A mount and what the system said of its blocks.
pub struct Measured {
    pub device: String,
    pub mount: String,
    pub fstype: String,
    pub stat: Option<Statvfs>,
}

#[verifier::ext_equal]
pub struct MeasuredView {
    pub device: Seq<char>,
    pub mount: Seq<char>,
    pub fstype: Seq<char>,
    pub stat: Option<Statvfs>,
}

impl View for Measured {
    type V = MeasuredView;

    open spec fn view(&self) -> MeasuredView {
        MeasuredView {
            device: self.device@,
            mount: self.mount@,
            fstype: self.fstype@,
            stat: self.stat,
        }
    }
}

pub open spec fn measured_views(v: Seq<Measured>) -> Seq<MeasuredView> {
    v.map_values(|m: Measured| m@)
}

/// The capacity of a mount: nothing where the system does not say, or where
/// the filesystem has no blocks.
pub open spec fn capacity_of(m: MeasuredView) -> Option<FsView> {
    match m.stat {
        Some(s) if s.blocks > 0 => Some(
            FsView {
                mount: m.mount,
                device: m.device,
                fstype: m.fstype,
                total_kb: in_kb(s.blocks, s.frsize) as u64,
                avail_kb: in_kb(s.bavail, s.frsize) as u64,
                used_pct: used_share(s.blocks, s.bfree, s.bavail) as u8,
            },
        ),
        _ => None,
    }
}

/// The capacities of a list of mounts.
pub open spec fn capacities_of(list: Seq<MeasuredView>) -> Seq<FsView>
    decreases list.len(),
{
    if list.len() == 0 {
        Seq::empty()
    } else {
        let before = capacities_of(list.drop_last());
        match capacity_of(list.last()) {
            Some(f) => before.push(f),
            None => before,
        }
    }
}

fn capacities(found: &Vec<Measured>) -> (r: Vec<Filesystem>)
    ensures
        fs_views(r@) == capacities_of(measured_views(found@)),
{
    let ghost all = measured_views(found@);
    let mut out: Vec<Filesystem> = Vec::new();
    let mut i: usize = 0;
    assert(fs_views(out@) =~= capacities_of(all.take(0)));
    while i < found.len()
        invariant
            i <= found.len(),
            all == measured_views(found@),
            fs_views(out@) == capacities_of(all.take(i as int)),
        decreases found.len() - i,
    {
        let ghost before = fs_views(out@);
        proof {
            assert(all.take(i as int + 1).drop_last() =~= all.take(i as int));
            assert(all.take(i as int + 1).last() == found@[i as int]@);
        }
        if let Some(s) = found[i].stat {
            if s.blocks > 0 {
                let f: Filesystem = Filesystem {
                    mount: found[i].mount.clone(),
                    device: found[i].device.clone(),
                    fstype: found[i].fstype.clone(),
                    total_kb: to_kb(s.blocks, s.frsize),
                    avail_kb: to_kb(s.bavail, s.frsize),
                    used_pct: calc_used_pct(s.blocks, s.bfree, s.bavail),
                };
                out.push(f);
                assert(fs_views(out@) =~= before.push(f@));
            }
        }
        i = i + 1;
    }
    assert(all.take(i as int) =~= all);
    out
}

// ------------------------------------------------------------ one per device

/// What tells filesystems apart: the device where there is one, and the mount
/// path for sources that are not devices.
pub open spec fn fs_key(f: FsView) -> Seq<char> {
    if begins(f.device, "/dev/"@) {
        f.device
    } else {
        f.mount
    }
}

/// The first position of a filesystem with a key, or the length.
pub open spec fn key_index(list: Seq<FsView>, key: Seq<char>) -> int
    decreases list.len(),
{
    if list.len() == 0 {
        0
    } else if fs_key(list[0]) == key {
        0
    } else {
        1 + key_index(list.drop_first(), key)
    }
}

/// The filesystems with one more: where its key is there already, the one with
/// the shorter mount path stays.
pub open spec fn merged(list: Seq<FsView>, f: FsView) -> Seq<FsView> {
    let k = key_index(list, fs_key(f));
    if k >= list.len() {
        list.push(f)
    } else if bytes_in(f.mount) < bytes_in(list[k].mount) {
        list.update(k, f)
    } else {
        list
    }
}

/// One filesystem for each key, with the shortest mount path.
pub open spec fn deduped(list: Seq<FsView>) -> Seq<FsView>
    decreases list.len(),
{
    if list.len() == 0 {
        Seq::empty()
    } else {
        merged(deduped(list.drop_last()), list.last())
    }
}

fn key_of(f: &Filesystem) -> (r: &String)
    ensures
        r@ == fs_key(f@),
{
    if starts_with(f.device.as_str(), "/dev/") {
        &f.device
    } else {
        &f.mount
    }
}

fn find_key(list: &Vec<Filesystem>, key: &str) -> (r: usize)
    ensures
        r == key_index(fs_views(list@), key@),
        r <= list@.len(),
{
    let ghost all = fs_views(list@);
    let mut i: usize = 0;
    assert(all.skip(0) =~= all);
    while i < list.len()
        invariant
            i <= list.len(),
            all == fs_views(list@),
            key_index(all, key@) == i + key_index(all.skip(i as int), key@),
        decreases list.len() - i,
    {
        assert(all.skip(i as int)[0] == list@[i as int]@);
        if same(key_of(&list[i]).as_str(), key) {
            return i;
        }
        assert(all.skip(i as int).drop_first() =~= all.skip(i as int + 1));
        i = i + 1;
    }
    i
}

/// Bind mounts repeat the same block device at several paths: the shortest
/// mount path of each device stays. Other sources are distinct per mount.
pub fn dedupe(fs: Vec<Filesystem>) -> (r: Vec<Filesystem>)
    ensures
        fs_views(r@) == deduped(fs_views(fs@)),
{
    let ghost all = fs_views(fs@);
    let mut out: Vec<Filesystem> = Vec::new();
    let mut i: usize = 0;
    assert(fs_views(out@) =~= deduped(all.take(0)));
    while i < fs.len()
        invariant
            i <= fs.len(),
            all == fs_views(fs@),
            fs_views(out@) == deduped(all.take(i as int)),
        decreases fs.len() - i,
    {
        let ghost before = fs_views(out@);
        proof {
            assert(all.take(i as int + 1).drop_last() =~= all.take(i as int));
            assert(all.take(i as int + 1).last() == fs@[i as int]@);
        }
        let f: Filesystem = fs[i].copy();
        let k: usize = find_key(&out, key_of(&f).as_str());
        if k >= out.len() {
            out.push(f);
            assert(fs_views(out@) =~= before.push(f@));
        } else {
            assert(before[k as int] == out@[k as int]@);
            if byte_len(f.mount.as_str()) < byte_len(out[k].mount.as_str()) {
                out.set(k, f);
                assert(fs_views(out@) =~= before.update(k as int, f@));
            }
        }
        i = i + 1;
    }
    assert(all.take(i as int) =~= all);
    out
}

// ------------------------------------------------------------ fullest first

/// Whether a filesystem is listed before another: the fuller first, and by
/// mount path where both are as full.
pub open spec fn fuller(a: FsView, b: FsView) -> bool {
    a.used_pct > b.used_pct || (a.used_pct == b.used_pct && text_less(a.mount, b.mount))
}

/// `fuller` as a relation.
pub open spec fn by_fullness() -> spec_fn(FsView, FsView) -> bool {
    |a: FsView, b: FsView| fuller(a, b)
}

proof fn lemma_fullness()
    ensures
        is_order(by_fullness()),
{
    let f = by_fullness();
    assert forall|a: FsView| !#[trigger] f(a, a) by {
        lemma_text_irreflexive(a.mount);
    }
    assert forall|a: FsView, b: FsView, c: FsView|
        #[trigger] f(a, b) && #[trigger] f(b, c) implies f(a, c) by {
        lemma_text_order(a.mount, b.mount, c.mount);
    }
    assert forall|a: FsView, b: FsView, c: FsView|
        !#[trigger] f(a, b) && !#[trigger] f(b, c) implies !f(a, c) by {
        lemma_text_order(a.mount, b.mount, c.mount);
    }
}

fn rank_fs(list: &Vec<Filesystem>) -> (r: Vec<usize>)
    ensures
        indices(r@) == ranked(fs_views(list@), by_fullness()),
        r@.len() == list@.len(),
        forall|i: int| 0 <= i < r@.len() ==> 0 <= #[trigger] r@[i] < list@.len(),
{
    let mut out: Vec<usize> = Vec::new();
    let mut i: usize = 0;
    let ghost all = fs_views(list@);
    assert(indices(out@) =~= ranked(all.take(0), by_fullness()));
    while i < list.len()
        invariant
            i <= list.len(),
            all == fs_views(list@),
            out@.len() == i,
            forall|j: int| 0 <= j < out@.len() ==> 0 <= #[trigger] out@[j] < i,
            indices(out@) == ranked(all.take(i as int), by_fullness()),
        decreases list.len() - i,
    {
        let ghost r = indices(out@);
        let ghost now = all.take(i as int + 1);
        let mut p: usize = 0;
        while p < out.len() && !(list[i].used_pct > list[out[p]].used_pct || (list[i].used_pct
            == list[out[p]].used_pct && comes_before(
            list[i].mount.as_str(),
            list[out[p]].mount.as_str(),
        )))
            invariant
                p <= out.len(),
                i < list.len(),
                all == fs_views(list@),
                r == indices(out@),
                now == all.take(i as int + 1),
                forall|j: int| 0 <= j < out@.len() ==> 0 <= #[trigger] out@[j] < i,
                slot(now, by_fullness(), r, i as int, 0) == slot(
                    now,
                    by_fullness(),
                    r,
                    i as int,
                    p as int,
                ),
            decreases out.len() - p,
        {
            assert(r[p as int] == out@[p as int]);
            p = p + 1;
        }
        assert(p < out@.len() ==> r[p as int] == out@[p as int]);
        assert(now.drop_last() =~= all.take(i as int));
        out.insert(p, i);
        assert(indices(out@) =~= r.insert(p as int, i as int));
        i = i + 1;
    }
    assert(all.take(i as int) =~= all);
    out
}

/// The listing of a set of measured mounts.
pub open spec fn listing(found: Seq<MeasuredView>) -> Seq<FsView> {
    let list = deduped(capacities_of(found));
    arranged(list, ranked(list, by_fullness()))
}

/// Real mounted filesystems, fullest first.
pub fn filesystems(found: &Vec<Measured>) -> (r: Vec<Filesystem>)
    ensures
        fs_views(r@) == listing(measured_views(found@)),
{
    let list: Vec<Filesystem> = dedupe(capacities(found));
    let order: Vec<usize> = rank_fs(&list);
    let ghost views = fs_views(list@);
    let ghost want = indices(order@);
    let mut out: Vec<Filesystem> = Vec::new();
    let mut i: usize = 0;
    while i < order.len()
        invariant
            i <= order.len(),
            views == fs_views(list@),
            want == indices(order@),
            forall|j: int| 0 <= j < order@.len() ==> 0 <= #[trigger] order@[j] < list@.len(),
            fs_views(out@) == arranged(views, want.take(i as int)),
        decreases order.len() - i,
    {
        let ghost before = fs_views(out@);
        let f: Filesystem = list[order[i]].copy();
        out.push(f);
        proof {
            assert(want[i as int] == order@[i as int]);
            assert(arranged(views, want.take(i as int + 1)) =~= arranged(
                views,
                want.take(i as int),
            ).push(views[want[i as int]]));
            assert(fs_views(out@) =~= before.push(f@));
        }
        i = i + 1;
    }
    assert(want.take(i as int) =~= want);
    out
}

/// The fullest filesystem of a listing, which comes first.
pub fn fullest(fs: &Vec<Filesystem>) -> (r: Option<&Filesystem>)
    ensures
        r is None <==> fs@.len() == 0,
        r matches Some(f) ==> *f == fs@[0],
{
    if fs.len() == 0 {
        None
    } else {
        Some(&fs[0])
    }
}

// ------------------------------------------------------------ laws

proof fn lemma_key_index(list: Seq<FsView>, key: Seq<char>)
    ensures
        0 <= key_index(list, key) <= list.len(),
        key_index(list, key) < list.len() ==> fs_key(list[key_index(list, key)]) == key,
        forall|j: int| 0 <= j < key_index(list, key) ==> fs_key(#[trigger] list[j]) != key,
    decreases list.len(),
{
    if list.len() > 0 && fs_key(list[0]) != key {
        lemma_key_index(list.drop_first(), key);
        assert forall|j: int| 0 <= j < key_index(list, key) implies fs_key(#[trigger] list[j])
            != key by {
            if j > 0 {
                assert(list[j] == list.drop_first()[j - 1]);
            }
        }
    }
}

/// Whether a filesystem of the same key with no longer a mount path stands in
/// a list.
pub open spec fn represented(list: Seq<FsView>, f: FsView) -> bool {
    exists|j: int|
        0 <= j < list.len() && fs_key(#[trigger] list[j]) == fs_key(f) && bytes_in(list[j].mount)
            <= bytes_in(f.mount)
}

/// No two entries of a deduplicated list share a device, every entry was
/// there before, and each filesystem is represented by one whose mount path
/// is no longer than its own.
pub proof fn one_entry_per_device(list: Seq<FsView>)
    ensures
        forall|i: int, j: int|
            0 <= i < j < deduped(list).len() ==> fs_key(#[trigger] deduped(list)[i]) != fs_key(
                #[trigger] deduped(list)[j],
            ),
        forall|i: int| 0 <= i < deduped(list).len() ==> list.contains(#[trigger] deduped(list)[i]),
        forall|i: int| 0 <= i < list.len() ==> represented(deduped(list), #[trigger] list[i]),
    decreases list.len(),
{
    if list.len() > 0 {
        let head = list.drop_last();
        let f = list.last();
        let old_list = deduped(head);
        let new_list = deduped(list);
        let k = key_index(old_list, fs_key(f));
        one_entry_per_device(head);
        lemma_key_index(old_list, fs_key(f));
        assert forall|i: int| 0 <= i < new_list.len() implies list.contains(
            #[trigger] new_list[i],
        ) by {
            if i < old_list.len() && new_list[i] == old_list[i] {
                let w = choose|w: int| 0 <= w < head.len() && head[w] == old_list[i];
                assert(list[w] == new_list[i]);
            } else {
                assert(new_list[i] == f);
                assert(list[list.len() - 1] == f);
            }
        }
        assert forall|i: int| 0 <= i < list.len() implies represented(
            new_list,
            #[trigger] list[i],
        ) by {
            if i < head.len() {
                assert(head[i] == list[i]);
                assert(represented(old_list, head[i]));
                let j = choose|j: int|
                    0 <= j < old_list.len() && fs_key(#[trigger] old_list[j]) == fs_key(head[i])
                        && bytes_in(old_list[j].mount) <= bytes_in(head[i].mount);
                assert(fs_key(new_list[j]) == fs_key(list[i]));
            } else if k >= old_list.len() {
                assert(new_list[old_list.len() as int] == f);
            } else {
                assert(fs_key(new_list[k]) == fs_key(f));
            }
        }
    }
}

/// A listing is in order of fullness, and its first entry is as full as any.
pub proof fn listings_are_fullest_first(found: Seq<MeasuredView>)
    ensures
        listing(found).len() == deduped(capacities_of(found)).len(),
        forall|i: int, j: int|
            0 <= i < j < listing(found).len() ==> (#[trigger] listing(found)[i]).used_pct >= (
            #[trigger] listing(found)[j]).used_pct,
{
    let list = deduped(capacities_of(found));
    let r = ranked(list, by_fullness());
    lemma_fullness();
    ranked_is_a_ranking(list, by_fullness());
    assert(is_ranking(list, by_fullness(), r));
    assert forall|i: int, j: int| 0 <= i < j < listing(found).len() implies (
    #[trigger] listing(found)[i]).used_pct >= (#[trigger] listing(found)[j]).used_pct by {
        assert(!by_fullness()(list[r[j]], list[r[i]]));
    }
}

/// A share is a percentage, and nothing is used where all blocks are free.
pub proof fn shares_are_percentages(blocks: u64, bfree: u64, bavail: u64)
    ensures
        0 <= used_share(blocks, bfree, bavail) <= 100,
        blocks <= bfree ==> used_share(blocks, bfree, bavail) == 0,
        bfree < blocks && bavail == 0 ==> used_share(blocks, bfree, bavail) == 100,
{
    let used = if blocks >= bfree {
        blocks - bfree
    } else {
        0
    };
    let denom = if used + bavail > u64::MAX {
        u64::MAX as int
    } else {
        used + bavail
    };
    if denom > 0 {
        assert(used * 100 / denom >= 0) by (nonlinear_arith)
            requires
                used >= 0,
                denom > 0,
        ;
        if used == 0 {
            assert(0 * 100int / denom == 0) by (nonlinear_arith)
                requires
                    denom > 0,
            ;
        }
        if bavail == 0 {
            assert(used * 100 / used == 100) by (nonlinear_arith)
                requires
                    used > 0,
            ;
        }
    }
}

/// A line of the mount table names a device, a path and a kind, in this
/// order; a shorter line names nothing.
pub proof fn mount_lines_name_device_path_and_kind(
    list: Seq<Seq<char>>,
    line: Seq<char>,
    path: Seq<char>,
)
    ensures
        words_of(line).len() < 3 ==> mounts_of(list.push(line)) == mounts_of(list),
        words_of(line).len() >= 3 && words_of(line)[1] == kernel_text(path) ==> mounts_of(
            list.push(line),
        ) == mounts_of(list).push(
            (words_of(line)[0], lossy_of(encode_utf8(path)), words_of(line)[2]),
        ),
{
    assert(list.push(line).drop_last() =~= list);
    escapes_are_undone(path);
}

/// Loop devices, overlays and the kernel's own filesystems do not count, and
/// everything else does.
pub proof fn noise_does_not_count(device: Seq<char>, fstype: Seq<char>)
    ensures
        begins(device, "/dev/loop"@) ==> !counts(device, fstype),
        !begins(device, "/dev/loop"@) ==> (counts(device, fstype) <==> !seq![
            "overlay"@,
            "bpf"@,
            "configfs"@,
            "debugfs"@,
            "efivarfs"@,
            "fusectl"@,
            "hugetlbfs"@,
            "mqueue"@,
            "pstore"@,
            "rpc_pipefs"@,
            "securityfs"@,
            "tracefs"@,
        ].contains(fstype)),
{
    let noise = seq![
        "overlay"@,
        "bpf"@,
        "configfs"@,
        "debugfs"@,
        "efivarfs"@,
        "fusectl"@,
        "hugetlbfs"@,
        "mqueue"@,
        "pstore"@,
        "rpc_pipefs"@,
        "securityfs"@,
        "tracefs"@,
    ];
    assert(noise[0] == "overlay"@ && noise[1] == "bpf"@ && noise[2] == "configfs"@);
    assert(noise[3] == "debugfs"@ && noise[4] == "efivarfs"@ && noise[5] == "fusectl"@);
    assert(noise[6] == "hugetlbfs"@ && noise[7] == "mqueue"@ && noise[8] == "pstore"@);
    assert(noise[9] == "rpc_pipefs"@ && noise[10] == "securityfs"@ && noise[11] == "tracefs"@);
    if noise.contains(fstype) {
        let i = choose|i: int| 0 <= i < noise.len() && noise[i] == fstype;
        assert(i == 0 || i == 1 || i == 2 || i == 3 || i == 4 || i == 5 || i == 6 || i == 7 || i
            == 8 || i == 9 || i == 10 || i == 11);
    }
}

/// The share in use is the used blocks of those used or to be had, in whole
/// percents.
pub proof fn shares_are_of_what_can_be_had(blocks: u64, bfree: u64, bavail: u64)
    requires
        bfree <= blocks,
        0 < blocks - bfree + bavail <= u64::MAX,
    ensures
        ({
            let used = blocks - bfree;
            let r = used_share(blocks, bfree, bavail);
            &&& r * (used + bavail) <= used * 100
            &&& used * 100 < (r + 1) * (used + bavail)
        }),
{
    let used = blocks - bfree;
    let denom = used + bavail;
    let q = used * 100 / denom;
    assert(q * denom <= used * 100 < (q + 1) * denom) by (nonlinear_arith)
        requires
            denom > 0,
            used >= 0,
            q == used * 100 / denom,
    ;
    assert(q <= 100) by (nonlinear_arith)
        requires
            q * denom <= used * 100,
            used <= denom,
            denom > 0,
    ;
}

/// Blocks are told in whole kilobytes of 1024 bytes.
pub proof fn blocks_are_told_in_kilobytes(count: u64, frsize: u64)
    requires
        count * frsize / 1024 <= u64::MAX,
    ensures
        in_kb(count, frsize) * 1024 <= count * frsize < in_kb(count, frsize) * 1024 + 1024,
{
}

/// A mount has a capacity where the system tells one with blocks: its size
/// and what is to be had of it.
pub proof fn mounts_with_blocks_have_a_capacity(list: Seq<MeasuredView>, m: MeasuredView)
    ensures
        m.stat is None ==> capacities_of(list.push(m)) == capacities_of(list),
        m.stat matches Some(s) ==> s.blocks == 0 ==> capacities_of(list.push(m)) == capacities_of(
            list,
        ),
        m.stat matches Some(s) ==> s.blocks > 0 ==> {
            let r = capacities_of(list.push(m));
            &&& r.len() == capacities_of(list).len() + 1
            &&& r.drop_last() == capacities_of(list)
            &&& r.last().mount == m.mount && r.last().device == m.device && r.last().fstype
                == m.fstype
            &&& r.last().total_kb == in_kb(s.blocks, s.frsize)
            &&& r.last().avail_kb == in_kb(s.bavail, s.frsize)
            &&& r.last().used_pct == used_share(s.blocks, s.bfree, s.bavail)
        },
{
    assert(list.push(m).drop_last() =~= list);
    match m.stat {
        Some(s) => {
            shares_are_percentages(s.blocks, s.bfree, s.bavail);
            assert(capacities_of(list).push(capacity_of(m)->0).drop_last() =~= capacities_of(list));
            assert(in_kb(s.blocks, s.frsize) >= 0) by {
                assert(s.blocks * s.frsize >= 0) by (nonlinear_arith);
            }
            assert(in_kb(s.bavail, s.frsize) >= 0) by {
                assert(s.bavail * s.frsize >= 0) by (nonlinear_arith);
            }
        },
        None => {},
    }
}

/// Filesystems on a device are told apart by the device, the others by where
/// they are mounted.
pub proof fn devices_tell_filesystems_apart(f: FsView, g: FsView)
    ensures
        begins(f.device, "/dev/"@) && begins(g.device, "/dev/"@) ==> (fs_key(f) == fs_key(g)
            <==> f.device == g.device),
        !begins(f.device, "/dev/"@) && !begins(g.device, "/dev/"@) ==> (fs_key(f) == fs_key(g)
            <==> f.mount == g.mount),
{
}

/// Of filesystems that are as full, the listing goes by where they are
/// mounted.
pub proof fn equals_are_listed_by_mount(found: Seq<MeasuredView>, i: int, j: int)
    requires
        0 <= i < j < listing(found).len(),
        listing(found)[i].used_pct == listing(found)[j].used_pct,
    ensures
        !text_less(listing(found)[j].mount, listing(found)[i].mount),
{
    let list = deduped(capacities_of(found));
    let r = ranked(list, by_fullness());
    lemma_fullness();
    ranked_is_a_ranking(list, by_fullness());
    assert(is_ranking(list, by_fullness(), r));
    assert(!by_fullness()(list[r[j]], list[r[i]]));
}

} // verus!
