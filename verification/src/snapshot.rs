//! What a snapshot of a directory tree records for each path.
//!
//! Walking the tree, reading files and attributes, and writing the snapshot
//! out are the caller's part. Here is what is decided on the way: how a file
//! type is named, whether content is recorded whole or as a summary, and how
//! the value of an extended attribute is shown.

use vstd::prelude::*;
use vstd::string::StringExecFns;
use vstd::utf8::encode_utf8;
use crate::summary::{compr_str, summary};
use crate::text::{chars_of, latin1_text};

verus! {

/// From this size on a file's content is recorded as a summary, if the
/// summary is the shorter of the two.
pub const COMPR_THRESHOLD: u64 = 128;

/// The kinds of file a snapshot can hold.
#[derive(Clone, Copy, Debug, PartialEq, Eq, Structural)]
pub enum FileKind {
    File,
    Dir,
    Symlink,
}

/// The numbers that `stat` gives for a path.
#[derive(Clone, Copy, Debug, PartialEq, Eq)]
pub struct Stat {
    pub st_ino: u64,
    pub st_mode: u32,
    pub st_nlink: u64,
    pub st_uid: u32,
    pub st_gid: u32,
    pub st_size: u64,
    pub st_blocks: u64,
    pub st_atim_sec: i64,
    pub st_atim_nsec: i64,
    pub st_mtim_sec: i64,
    pub st_mtim_nsec: i64,
    pub st_ctim_sec: i64,
    pub st_ctim_nsec: i64,
}

/// The content of a file as the snapshot records it: whole, or as a summary,
/// never both.
#[derive(Clone, Debug, PartialEq, Eq)]
pub struct FileContent {
    pub content: Option<String>,
    pub content_compr: Option<String>,
}

/// Everything the snapshot records for one path.
#[derive(Clone, Debug, PartialEq, Eq)]
pub struct FileAttrs {
    pub typeflag: String,
    pub content: Option<String>,
    pub content_compr: Option<String>,
    pub target: Option<String>,
    pub xattrs: Vec<(String, String)>,
    pub stat: Stat,
}

/// The characters of an optional text.
pub open spec fn text_of(text: Option<String>) -> Option<Seq<char>> {
    match text {
        Some(s) => Some(s@),
        None => None,
    }
}

/// The name of a file kind in the snapshot.
pub open spec fn typeflag_text(kind: FileKind) -> Seq<char> {
    match kind {
        FileKind::File => seq!['F'],
        FileKind::Dir => seq!['D'],
        FileKind::Symlink => seq!['S', 'L'],
    }
}

/// Whether a file of `size` bytes with the content `data` is recorded as a
/// summary: it is large enough, and the summary takes fewer bytes in UTF-8
/// than the file has.
pub open spec fn summarized(data: Seq<u8>, size: u64) -> bool {
    size >= COMPR_THRESHOLD && encode_utf8(summary(data)).len() < size
}

/// What is shown for an attribute whose value could not be read.
pub open spec fn no_value_text() -> Seq<char> {
    "xattr could not be extracted!"@
}

/// What is shown for the value of an extended attribute.
pub open spec fn xattr_text(value: Option<Seq<u8>>) -> Seq<char> {
    match value {
        Some(bytes) => chars_of(bytes),
        None => no_value_text(),
    }
}

/// The name of `kind` in the snapshot: `F`, `D` or `SL`.
pub fn typeflag(kind: FileKind) -> (flag: String)
    ensures
        flag@ == typeflag_text(kind),
{
    proof {
        reveal_strlit("F");
        reveal_strlit("D");
        reveal_strlit("SL");
    }
    let flag = match kind {
        FileKind::File => String::from_str("F"),
        FileKind::Dir => String::from_str("D"),
        FileKind::Symlink => String::from_str("SL"),
    };
    flag
}

/// Whether the content of a path of this kind is recorded.
pub fn wants_content(dump_contents: bool, kind: FileKind) -> (wanted: bool)
    ensures
        wanted == (dump_contents && kind == FileKind::File),
{
    dump_contents && kind == FileKind::File
}

/// Whether the target of a path of this kind is recorded.
pub fn wants_target(dump_contents: bool, kind: FileKind) -> (wanted: bool)
    ensures
        wanted == (dump_contents && kind == FileKind::Symlink),
{
    dump_contents && kind == FileKind::Symlink
}

/// How the content `data` of a file of `size` bytes is recorded.
pub fn file_content(data: &[u8], size: u64) -> (recorded: FileContent)
    requires
        data@.len() <= i32::MAX,
    ensures
        summarized(data@, size) ==> text_of(recorded.content) is None && text_of(
            recorded.content_compr,
        ) == Some(summary(data@)),
        !summarized(data@, size) ==> text_of(recorded.content) == Some(chars_of(data@)) && text_of(
            recorded.content_compr,
        ) is None,
{
    if size >= COMPR_THRESHOLD {
        let compressed = compr_str(data);
        let len: usize = compressed.as_str().as_bytes().len();
        if (len as u64) < size {
            return FileContent { content: None, content_compr: Some(compressed) };
        }
    }
    FileContent { content: Some(latin1_text(data)), content_compr: None }
}

/// What is shown for the value of an extended attribute: its bytes as
/// characters, or a fixed notice when there is no value.
pub fn xattr_value(value: Option<&[u8]>) -> (text: String)
    ensures
        text@ == xattr_text(
            match value {
                Some(bytes) => Some(bytes@),
                None => None,
            },
        ),
{
    match value {
        Some(bytes) => latin1_text(bytes),
        None => String::from_str("xattr could not be extracted!"),
    }
}

/// What a list of attributes with their values stands for.
pub open spec fn raw_view(raw: Seq<(String, Option<Vec<u8>>)>) -> Seq<(Seq<char>, Seq<char>)> {
    raw.map_values(
        |pair: (String, Option<Vec<u8>>)|
            (
                pair.0@,
                xattr_text(
                    match pair.1 {
                        Some(bytes) => Some(bytes@),
                        None => None,
                    },
                ),
            ),
    )
}

/// What a list of shown attributes stands for.
pub open spec fn shown_view(shown: Seq<(String, String)>) -> Seq<(Seq<char>, Seq<char>)> {
    shown.map_values(|pair: (String, String)| (pair.0@, pair.1@))
}

/// The extended attributes as the snapshot shows them: each name with its
/// value as text, in the order given.
pub fn list_xattrs(raw: Vec<(String, Option<Vec<u8>>)>) -> (shown: Vec<(String, String)>)
    ensures
        shown_view(shown@) == raw_view(raw@),
{
    let mut shown: Vec<(String, String)> = Vec::new();
    let n: usize = raw.len();
    let mut i: usize = 0;
    while i < n
        invariant
            i <= n,
            n == raw@.len(),
            shown_view(shown@) == raw_view(raw@.take(i as int)),
        decreases n - i,
    {
        let ghost before = shown_view(shown@);
        let name = raw[i].0.clone();
        let text = match &raw[i].1 {
            Some(bytes) => xattr_value(Some(bytes.as_slice())),
            None => xattr_value(None),
        };
        shown.push((name, text));
        i += 1;
        assert(raw_view(raw@.take(i as int)) =~= raw_view(raw@.take(i - 1)).push((name@, text@)));
    }
    shown
}

/// Where `a` stands to `b` in the order of paths.
#[derive(Clone, Copy, Debug, PartialEq, Eq, Structural)]
pub enum Order {
    Before,
    Same,
    After,
}

/// `a` comes before `b`, and place `k` shows it: up to `k` they agree, and
/// there `a` ends or has the smaller byte.
pub open spec fn decided_at(a: Seq<u8>, b: Seq<u8>, k: int) -> bool {
    &&& 0 <= k <= a.len()
    &&& k < b.len()
    &&& forall|j: int| 0 <= j < k ==> a[j] == b[j]
    &&& (k == a.len() || a[k] < b[k])
}

/// The order of paths: byte by byte, a prefix before what it is a prefix of.
pub open spec fn bytes_before(a: Seq<u8>, b: Seq<u8>) -> bool {
    exists|k: int| decided_at(a, b, k)
}

/// The bytes by which a path is ordered and told apart: its UTF-8 form.
pub open spec fn path_key(path: Seq<char>) -> Seq<u8> {
    encode_utf8(path)
}

/// Nothing comes before itself.
pub proof fn lemma_before_irreflexive(a: Seq<u8>)
    ensures
        !bytes_before(a, a),
{
    assert forall|k: int| !decided_at(a, a, k) by {}
}

/// What comes before something that comes before a third comes before the
/// third.
pub proof fn lemma_before_transitive(a: Seq<u8>, b: Seq<u8>, c: Seq<u8>)
    requires
        bytes_before(a, b),
        bytes_before(b, c),
    ensures
        bytes_before(a, c),
{
    let k1 = choose|k: int| decided_at(a, b, k);
    let k2 = choose|k: int| decided_at(b, c, k);
    if k1 <= k2 {
        assert(decided_at(a, c, k1));
    } else {
        assert(decided_at(a, c, k2));
    }
}

/// Compares two byte strings in the order of paths.
pub fn order_bytes(a: &[u8], b: &[u8]) -> (order: Order)
    ensures
        match order {
            Order::Before => bytes_before(a@, b@),
            Order::Same => a@ == b@,
            Order::After => bytes_before(b@, a@),
        },
{
    let n: usize = a.len();
    let m: usize = b.len();
    let mut i: usize = 0;
    while i < n && i < m
        invariant
            i <= n,
            i <= m,
            n == a@.len(),
            m == b@.len(),
            forall|j: int| 0 <= j < i ==> a@[j] == b@[j],
        decreases n - i,
    {
        if a[i] < b[i] {
            assert(decided_at(a@, b@, i as int));
            return Order::Before;
        }
        if a[i] > b[i] {
            assert(decided_at(b@, a@, i as int));
            return Order::After;
        }
        i += 1;
    }
    if n < m {
        assert(decided_at(a@, b@, i as int));
        Order::Before
    } else if n > m {
        assert(decided_at(b@, a@, i as int));
        Order::After
    } else {
        Order::Same
    }
}

/// What a snapshot stands for: its entries, each a path's key and what is
/// recorded for the path.
pub type Entries = Seq<(Seq<u8>, FileAttrs)>;

/// The entries stand in the order of their paths, so no path occurs twice.
pub open spec fn ascending(entries: Entries) -> bool {
    forall|i: int, j: int|
        0 <= i < j < entries.len() ==> bytes_before(
            (#[trigger] entries[i]).0,
            (#[trigger] entries[j]).0,
        )
}

/// Two snapshots that hold the same entries hold them in the same order:
/// what a snapshot looks like does not depend on the order in which its
/// entries came in.
pub proof fn law_canonical_order(a: Entries, b: Entries)
    requires
        ascending(a),
        ascending(b),
        forall|e: (Seq<u8>, FileAttrs)| a.contains(e) <==> b.contains(e),
    ensures
        a == b,
    decreases a.len(),
{
    if a.len() == 0 {
        if b.len() > 0 {
            assert(b.contains(b[0]));
        }
    } else {
        assert(a.contains(a[0]));
        let j = choose|j: int| 0 <= j < b.len() && b[j] == a[0];
        assert(b.contains(b[0]));
        let i = choose|i: int| 0 <= i < a.len() && a[i] == b[0];
        lemma_before_irreflexive(a[0].0);
        if i > 0 && j > 0 {
            lemma_before_transitive(a[0].0, b[0].0, a[0].0);
        }
        let a1 = a.drop_first();
        let b1 = b.drop_first();
        assert forall|e: (Seq<u8>, FileAttrs)| a1.contains(e) <==> b1.contains(e) by {
            if a1.contains(e) {
                assert(a.contains(e));
                let l = choose|l: int| 0 <= l < b.len() && b[l] == e;
                assert(b1[l - 1] == e);
            }
            if b1.contains(e) {
                assert(b.contains(e));
                let l = choose|l: int| 0 <= l < a.len() && a[l] == e;
                assert(a1[l - 1] == e);
            }
        }
        law_canonical_order(a1, b1);
        assert(b =~= seq![b[0]] + b1);
    }
}

/// A snapshot of a tree: what is recorded for each path, in the order of
/// the paths.
#[derive(Clone, Debug, PartialEq, Eq)]
pub struct Snapshot {
    entries: Vec<(String, FileAttrs)>,
}

/// What a list of entries stands for.
pub open spec fn entries_view(entries: Seq<(String, FileAttrs)>) -> Entries {
    entries.map_values(|e: (String, FileAttrs)| (path_key(e.0@), e.1))
}

impl View for Snapshot {
    type V = Entries;

    closed spec fn view(&self) -> Entries {
        entries_view(self.entries@)
    }
}

impl Snapshot {
    /// What every snapshot satisfies from `new` on.
    pub open spec fn inv(&self) -> bool {
        ascending(self@)
    }

    /// A snapshot of nothing.
    pub fn new() -> (snapshot: Snapshot)
        ensures
            snapshot.inv(),
            snapshot@ == Seq::<(Seq<u8>, FileAttrs)>::empty(),
    {
        let snapshot = Snapshot { entries: Vec::new() };
        snapshot
    }

    /// The number of paths.
    pub fn len(&self) -> (n: usize)
        ensures
            n == self@.len(),
    {
        self.entries.len()
    }

    /// The entries, in the order of their paths.
    pub fn entries(&self) -> (entries: &[(String, FileAttrs)])
        ensures
            entries_view(entries@) == self@,
    {
        self.entries.as_slice()
    }

    /// The place where `key` stands or would stand, and whether it stands
    /// there.
    fn locate(&self, key: &[u8]) -> (found: (usize, bool))
        requires
            self.inv(),
        ensures
            found.0 <= self@.len(),
            forall|j: int| 0 <= j < found.0 ==> bytes_before((#[trigger] self@[j]).0, key@),
            found.1 ==> found.0 < self@.len() && self@[found.0 as int].0 == key@,
            !found.1 ==> forall|j: int|
                found.0 <= j < self@.len() ==> bytes_before(key@, (#[trigger] self@[j]).0),
    {
        let n: usize = self.entries.len();
        let mut i: usize = 0;
        while i < n
            invariant
                i <= n,
                n == self.entries@.len(),
                self.inv(),
                forall|j: int| 0 <= j < i ==> bytes_before((#[trigger] self@[j]).0, key@),
            decreases n - i,
        {
            match order_bytes(self.entries[i].0.as_str().as_bytes(), key) {
                Order::Before => {
                    i += 1;
                },
                Order::Same => {
                    return (i, true);
                },
                Order::After => {
                    assert forall|j: int| i <= j < self@.len() implies bytes_before(
                        key@,
                        (#[trigger] self@[j]).0,
                    ) by {
                        if j > i {
                            lemma_before_transitive(key@, self@[i as int].0, self@[j].0);
                        }
                    }
                    return (i, false);
                },
            }
        }
        (i, false)
    }

    /// Records `attrs` for `path`, in place of what was recorded for it
    /// before, if anything was. Afterwards the snapshot holds this entry,
    /// and of those it held already the ones for other paths.
    pub fn insert(&mut self, path: String, attrs: FileAttrs)
        requires
            old(self).inv(),
        ensures
            final(self).inv(),
            forall|e: (Seq<u8>, FileAttrs)|
                final(self)@.contains(e) <==> (e == (path_key(path@), attrs) || (old(self)@.contains(
                    e,
                ) && e.0 != path_key(path@))),
    {
        let ghost key = path_key(path@);
        let ghost before = self@;
        let (place, same) = self.locate(path.as_str().as_bytes());
        if same {
            self.entries[place] = (path, attrs);
            proof {
                let after = self@;
                assert forall|i: int, j: int| 0 <= i < j < after.len() implies bytes_before(
                    (#[trigger] after[i]).0,
                    (#[trigger] after[j]).0,
                ) by {
                    assert(bytes_before(before[i].0, before[j].0));
                }
                assert forall|e: (Seq<u8>, FileAttrs)|
                    after.contains(e) <==> (e == (key, attrs) || (before.contains(e) && e.0
                        != key)) by {
                    if after.contains(e) {
                        let k = choose|k: int| 0 <= k < after.len() && after[k] == e;
                        if k != place {
                            lemma_before_irreflexive(key);
                            if k < place {
                                assert(bytes_before(before[k].0, before[place as int].0));
                            } else {
                                assert(bytes_before(before[place as int].0, before[k].0));
                            }
                        }
                    }
                    if e == (key, attrs) {
                        assert(after[place as int] == e);
                    }
                    if before.contains(e) && e.0 != key {
                        let k = choose|k: int| 0 <= k < before.len() && before[k] == e;
                        assert(after[k] == e);
                    }
                }
            }
        } else {
            self.entries.insert(place, (path, attrs));
            proof {
                let after = self@;
                assert forall|i: int, j: int| 0 <= i < j < after.len() implies bytes_before(
                    (#[trigger] after[i]).0,
                    (#[trigger] after[j]).0,
                ) by {
                    if j < place {
                        assert(bytes_before(before[i].0, before[j].0));
                    } else if j == place {
                        assert(bytes_before(before[i].0, key));
                    } else if i < place {
                        assert(bytes_before(before[i].0, before[j - 1].0));
                    } else if i == place {
                        assert(bytes_before(key, before[j - 1].0));
                    } else {
                        assert(bytes_before(before[i - 1].0, before[j - 1].0));
                    }
                }
                assert forall|e: (Seq<u8>, FileAttrs)|
                    after.contains(e) <==> (e == (key, attrs) || (before.contains(e) && e.0
                        != key)) by {
                    lemma_before_irreflexive(key);
                    if after.contains(e) {
                        let k = choose|k: int| 0 <= k < after.len() && after[k] == e;
                        if k < place {
                            assert(bytes_before(before[k].0, key));
                        } else if k > place {
                            assert(bytes_before(key, before[k - 1].0));
                        }
                    }
                    if e == (key, attrs) {
                        assert(after[place as int] == e);
                    }
                    if before.contains(e) && e.0 != key {
                        let k = choose|k: int| 0 <= k < before.len() && before[k] == e;
                        if k < place {
                            assert(after[k] == e);
                        } else {
                            assert(after[k + 1] == e);
                        }
                    }
                }
            }
        }
    }
}

} // verus!
