//! Snapshots of the snapshotted directories, taken before and after a
//! session.
//!
//! An entry records the metadata and a hash of every file. The content of
//! text files is kept in a content-addressed blob store so that diffs can be
//! shown later.

use vstd::prelude::*;

verus! {

/// Text files up to this size get their content stored.
pub const MAX_BLOB_BYTES: u64 = 1048576;

/// Bytes of a file that are looked at to tell text from binary.
pub const TEXT_PROBE_BYTES: usize = 8192;

#[verifier::external_type_specification]
#[verifier::external_body]
pub struct ExGlobSet(globset::GlobSet);

#[verifier::external_type_specification]
#[verifier::external_body]
pub struct ExGlobSetBuilder(globset::GlobSetBuilder);

/// The patterns added to a `globset::GlobSetBuilder`, in the order they were
/// added.
pub uninterp spec fn builder_globs(b: globset::GlobSetBuilder) -> Seq<Seq<char>>;

/// The patterns a `globset::GlobSet` was built from, in the order they were
/// added to its builder.
pub uninterp spec fn set_globs(s: globset::GlobSet) -> Seq<Seq<char>>;

/// Whether `globset::Glob::new` accepts `pattern`.
pub uninterp spec fn glob_valid(pattern: Seq<char>) -> bool;

/// Whether the glob `pattern`, as a member of a `globset::GlobSet`, matches
/// `path`.
pub uninterp spec fn glob_matches(pattern: Seq<char>, path: Seq<char>) -> bool;

/// Whether `globset::GlobSetBuilder::build` builds a set from these patterns:
/// it compiles them together into one matcher, which can exceed a size limit.
pub uninterp spec fn set_builds(patterns: Seq<Seq<char>>) -> bool;

/// `globset::GlobSetBuilder::new()`: a builder holding no pattern.
#[verifier::external_body]
fn new_builder() -> (b: globset::GlobSetBuilder)
    ensures
        builder_globs(b) == Seq::<Seq<char>>::empty(),
{
    globset::GlobSetBuilder::new()
}

/// `globset::Glob::new(pattern)` and, when it accepts the pattern,
/// `GlobSetBuilder::add` of that glob, which appends it to the builder's
/// patterns. A refused pattern leaves the builder as it was.
#[verifier::external_body]
fn add_glob(b: &mut globset::GlobSetBuilder, pattern: &str) -> (ok: bool)
    ensures
        ok == glob_valid(pattern@),
        ok ==> builder_globs(*final(b)) == builder_globs(*old(b)).push(pattern@),
        !ok ==> builder_globs(*final(b)) == builder_globs(*old(b)),
{
    match globset::Glob::new(pattern) {
        Ok(glob) => {
            b.add(glob);
            true
        },
        Err(_) => false,
    }
}

/// `globset::GlobSetBuilder::build()`, with its error turned into the error's
/// text. The contract claims that success depends on the builder's patterns
/// alone and that the set holds those patterns. Not stated: the build also
/// fails, by a panic inside `globset`, if its literal automaton would need
/// more states than its index type counts (patterns of billions of bytes).
#[verifier::external_body]
fn build_set(b: &globset::GlobSetBuilder) -> (r: Result<globset::GlobSet, String>)
    ensures
        r is Ok <==> set_builds(builder_globs(*b)),
        r matches Ok(s) ==> set_globs(s) == builder_globs(*b),
{
    match b.build() {
        Ok(set) => Ok(set),
        Err(e) => Err(e.to_string()),
    }
}

/// Whether some pattern of `patterns` matches `path`.
pub open spec fn any_match(patterns: Seq<Seq<char>>, path: Seq<char>) -> bool {
    exists|i: int| 0 <= i < patterns.len() && #[trigger] glob_matches(patterns[i], path)
}

/// `globset::GlobSet::is_match(path)`, which its documentation states is
/// whether any glob of the set matches the path.
#[verifier::external_body]
pub(crate) fn set_matches(s: &globset::GlobSet, path: &str) -> (r: bool)
    ensures
        r == (exists|i: int| 0 <= i < set_globs(*s).len() && #[trigger] glob_matches(set_globs(*s)[i], path@)),
{
    s.is_match(std::path::Path::new(path))
}

/// Whether `globset` accepts every pattern of `patterns`.
pub open spec fn all_valid(patterns: Seq<Seq<char>>) -> bool {
    forall|i: int| 0 <= i < patterns.len() ==> #[trigger] glob_valid(patterns[i])
}

/// Why a set of patterns could not be built.
#[derive(Clone, Debug, PartialEq, Eq)]
pub enum PatternError {
    /// A pattern that `globset` refused.
    Glob { pattern: String },
    /// Every pattern was accepted, but `globset` could not build the set of
    /// them; the text is its own.
    Build { message: String },
}

impl PatternError {
    /// `bad pattern {pattern}`, or the text of `globset`'s error.
    pub fn message(&self) -> (r: String)
        ensures
            match self {
                PatternError::Glob { pattern } => r@ == "bad pattern "@ + pattern@,
                PatternError::Build { message } => r@ == message@,
            },
    {
        match self {
            PatternError::Glob { pattern } => {
                let mut out = String::new();
                crate::text::push_str(&mut out, "bad pattern ");
                crate::text::push_str(&mut out, pattern.as_str());
                out
            },
            PatternError::Build { message } => crate::text::owned(message.as_str()),
        }
    }
}

/// The patterns as one `globset::GlobSet`. The first pattern that `globset`
/// refuses is named in the error; a set that cannot be built gives
/// `globset`'s own error.
pub fn glob_set(patterns: &[&str]) -> (r: Result<globset::GlobSet, PatternError>)
    ensures
        r is Ok <==> all_valid(patterns@.map_values(|p: &str| p@)) && set_builds(
            patterns@.map_values(|p: &str| p@),
        ),
        match r {
            Ok(s) => set_globs(s) == patterns@.map_values(|p: &str| p@),
            Err(PatternError::Glob { pattern }) => exists|i: int|
                0 <= i < patterns@.len() && patterns@[i]@ == pattern@ && !glob_valid(pattern@)
                    && all_valid(patterns@.take(i).map_values(|p: &str| p@)),
            Err(PatternError::Build { .. }) => all_valid(patterns@.map_values(|p: &str| p@)),
        },
{
    let ghost want = patterns@.map_values(|p: &str| p@);
    let mut builder = new_builder();
    let mut i: usize = 0;
    while i < patterns.len()
        invariant
            i <= patterns@.len(),
            want == patterns@.map_values(|p: &str| p@),
            builder_globs(builder) == want.take(i as int),
            all_valid(want.take(i as int)),
        decreases patterns.len() - i,
    {
        let p = patterns[i];
        if !add_glob(&mut builder, p) {
            assert(!all_valid(want)) by {
                assert(want[i as int] == p@);
            }
            assert(patterns@.take(i as int).map_values(|p: &str| p@) =~= want.take(i as int));
            return Err(PatternError::Glob { pattern: crate::text::owned(p) });
        }
        assert(want.take(i + 1) =~= want.take(i as int).push(p@));
        i = i + 1;
    }
    assert(want.take(want.len() as int) == want);
    match build_set(&builder) {
        Ok(set) => Ok(set),
        Err(message) => Err(PatternError::Build { message }),
    }
}

pub open spec fn exclude_patterns() -> Seq<Seq<char>> {
    seq![
        "/etc/ld.so.cache"@, "/etc/mtab"@, "/etc/machine-id"@, "/etc/.updated"@,
        "/etc/.pwd.lock"@, "/etc/passwd-"@, "/etc/group-"@, "/etc/shadow-"@,
        "/etc/gshadow-"@, "/etc/subuid-"@, "/etc/subgid-"@, "/etc/aliases.db"@,
        "/etc/udev/hwdb.bin"@, "**/*.lock"@, "**/*.swp"@, "**/*~"@,
    ]
}

pub open spec fn mask_patterns() -> Seq<Seq<char>> {
    seq![
        "/etc/shadow"@, "/etc/gshadow"@, "/etc/security/opasswd"@, "**/ssh_host_*_key"@,
        "**/*.key"@, "**/*.pem"@, "/etc/**/private/**"@, "/etc/ssl/private/**"@,
        "**/.ssh/id_*"@,
    ]
}

/// Which paths the snapshot leaves out, and which it records without their
/// content.
pub struct Rules {
    /// Files that change on their own, or that are rewritten by the system.
    exclude: globset::GlobSet,
    /// Files whose change is worth recording but whose content is not.
    /// Anchored at /etc where it names a directory, because macOS resolves
    /// temporary and system paths under /private.
    mask: globset::GlobSet,
}

impl Rules {
    pub closed spec fn spec_exclude(&self) -> Seq<Seq<char>> {
        set_globs(self.exclude)
    }

    pub closed spec fn spec_mask(&self) -> Seq<Seq<char>> {
        set_globs(self.mask)
    }

    /// The default rules. They are built when `globset` accepts every pattern
    /// and builds both sets; an error names a refused pattern, or carries
    /// `globset`'s error.
    pub fn defaults() -> (r: Result<Rules, PatternError>)
        ensures
            r is Ok <==> all_valid(exclude_patterns()) && set_builds(exclude_patterns())
                && all_valid(mask_patterns()) && set_builds(mask_patterns()),
            match r {
                Ok(rules) => rules.spec_exclude() == exclude_patterns()
                    && rules.spec_mask() == mask_patterns(),
                Err(PatternError::Glob { pattern }) => !glob_valid(pattern@) && (
                exclude_patterns().contains(pattern@) || mask_patterns().contains(pattern@)),
                Err(PatternError::Build { .. }) => true,
            },
    {
        let exclude_list = [
            "/etc/ld.so.cache", "/etc/mtab", "/etc/machine-id", "/etc/.updated",
            "/etc/.pwd.lock", "/etc/passwd-", "/etc/group-", "/etc/shadow-",
            "/etc/gshadow-", "/etc/subuid-", "/etc/subgid-", "/etc/aliases.db",
            "/etc/udev/hwdb.bin", "**/*.lock", "**/*.swp", "**/*~",
        ];
        let mask_list = [
            "/etc/shadow", "/etc/gshadow", "/etc/security/opasswd", "**/ssh_host_*_key",
            "**/*.key", "**/*.pem", "/etc/**/private/**", "/etc/ssl/private/**",
            "**/.ssh/id_*",
        ];
        assert(exclude_list@.map_values(|p: &str| p@) =~= exclude_patterns());
        assert(mask_list@.map_values(|p: &str| p@) =~= mask_patterns());
        let exclude = match glob_set(&exclude_list) {
            Ok(v) => v,
            Err(e) => {
                proof {
                    if let PatternError::Glob { pattern } = &e {
                        let i = choose|i: int| 0 <= i < exclude_list@.len() && exclude_list@[i]@ == pattern@
                            && !glob_valid(pattern@) && all_valid(exclude_list@.take(i).map_values(|p: &str| p@));
                        assert(exclude_patterns()[i] == pattern@);
                    }
                }
                return Err(e);
            },
        };
        let mask = match glob_set(&mask_list) {
            Ok(v) => v,
            Err(e) => {
                proof {
                    if let PatternError::Glob { pattern } = &e {
                        let i = choose|i: int| 0 <= i < mask_list@.len() && mask_list@[i]@ == pattern@
                            && !glob_valid(pattern@) && all_valid(mask_list@.take(i).map_values(|p: &str| p@));
                        assert(mask_patterns()[i] == pattern@);
                    }
                }
                return Err(e);
            },
        };
        Ok(Rules { exclude, mask })
    }

    pub fn is_excluded(&self, path: &str) -> (r: bool)
        ensures
            r == any_match(self.spec_exclude(), path@),
    {
        set_matches(&self.exclude, path)
    }

    pub fn is_masked(&self, path: &str) -> (r: bool)
        ensures
            r == any_match(self.spec_mask(), path@),
    {
        set_matches(&self.mask, path)
    }
}

// ----------------------------------------------------------------------------
// Entries.

#[derive(Clone, Debug, PartialEq, Eq)]
pub enum Content {
    File {
        size: u64,
        hash: String,
        /// Whether the content is in the blob store.
        blob: bool,
        /// Set for files whose content is deliberately not recorded.
        masked: bool,
    },
    Symlink { target: String },
}

/// What a snapshot knows of a file's content.
pub enum ContentV {
    File { size: u64, hash: Seq<char>, blob: bool, masked: bool },
    Symlink { target: Seq<char> },
}

impl View for Content {
    type V = ContentV;

    open spec fn view(&self) -> ContentV {
        match self {
            Content::File { size, hash, blob, masked } => ContentV::File {
                size: *size,
                hash: hash@,
                blob: *blob,
                masked: *masked,
            },
            Content::Symlink { target } => ContentV::Symlink { target: target@ },
        }
    }
}

#[derive(Clone, Debug, PartialEq, Eq)]
pub struct Entry {
    pub path: String,
    pub content: Content,
    pub mode: u32,
    pub uid: u32,
    pub gid: u32,
}

/// An entry as its path, content, mode and owner.
pub struct EntryV {
    pub path: Seq<char>,
    pub content: ContentV,
    pub mode: u32,
    pub uid: u32,
    pub gid: u32,
}

impl View for Entry {
    type V = EntryV;

    open spec fn view(&self) -> EntryV {
        EntryV {
            path: self.path@,
            content: self.content@,
            mode: self.mode,
            uid: self.uid,
            gid: self.gid,
        }
    }
}

pub open spec fn content_differs(a: EntryV, b: EntryV) -> bool {
    match (a.content, b.content) {
        (ContentV::File { hash: x, .. }, ContentV::File { hash: y, .. }) => x != y,
        (ContentV::Symlink { target: x }, ContentV::Symlink { target: y }) => x != y,
        _ => true,
    }
}

pub open spec fn metadata_differs(a: EntryV, b: EntryV) -> bool {
    a.mode != b.mode || a.uid != b.uid || a.gid != b.gid
}

pub open spec fn has_blob(e: EntryV) -> bool {
    e.content matches ContentV::File { blob: true, .. }
}

pub open spec fn is_masked(e: EntryV) -> bool {
    e.content matches ContentV::File { masked: true, .. }
}

impl Content {
    pub fn duplicate(&self) -> (r: Content)
        ensures
            r@ == self@,
    {
        match self {
            Content::File { size, hash, blob, masked } => Content::File {
                size: *size,
                hash: hash.clone(),
                blob: *blob,
                masked: *masked,
            },
            Content::Symlink { target } => Content::Symlink { target: target.clone() },
        }
    }
}

impl Entry {
    pub fn duplicate(&self) -> (r: Entry)
        ensures
            r@ == self@,
    {
        Entry {
            path: self.path.clone(),
            content: self.content.duplicate(),
            mode: self.mode,
            uid: self.uid,
            gid: self.gid,
        }
    }

    /// True when the file content (or symlink target) differs.
    pub fn content_differs(&self, other: &Entry) -> (r: bool)
        ensures
            r == content_differs(self@, other@),
    {
        match (&self.content, &other.content) {
            (Content::File { hash: a, .. }, Content::File { hash: b, .. }) => !(*a == *b),
            (Content::Symlink { target: a }, Content::Symlink { target: b }) => !(*a == *b),
            _ => true,
        }
    }

    pub fn metadata_differs(&self, other: &Entry) -> (r: bool)
        ensures
            r == metadata_differs(self@, other@),
    {
        self.mode != other.mode || self.uid != other.uid || self.gid != other.gid
    }

    pub fn hash(&self) -> (r: Option<&str>)
        ensures
            match self@.content {
                ContentV::File { hash, .. } => r matches Some(h) && h@ == hash,
                ContentV::Symlink { .. } => r.is_none(),
            },
    {
        match &self.content {
            Content::File { hash, .. } => Some(hash.as_str()),
            Content::Symlink { .. } => None,
        }
    }

    pub fn has_blob(&self) -> (r: bool)
        ensures
            r == has_blob(self@),
    {
        match &self.content {
            Content::File { blob, .. } => *blob,
            Content::Symlink { .. } => false,
        }
    }

    pub fn is_masked(&self) -> (r: bool)
        ensures
            r == is_masked(self@),
    {
        match &self.content {
            Content::File { masked, .. } => *masked,
            Content::Symlink { .. } => false,
        }
    }

    pub fn is_symlink(&self) -> (r: bool)
        ensures
            r == (self@.content is Symlink),
    {
        match &self.content {
            Content::File { .. } => false,
            Content::Symlink { .. } => true,
        }
    }
}

#[derive(Debug, Default, Clone, Copy, PartialEq, Eq)]
pub struct Stats {
    pub files: usize,
    /// Paths that could not be read (permissions, races).
    pub unreadable: usize,
}

// ----------------------------------------------------------------------------
// File content.

/// The lowercase hex of the BLAKE3 hash of `bytes`.
pub uninterp spec fn blake3_hex(bytes: Seq<u8>) -> Seq<char>;

/// `blake3::hash(bytes).to_hex()`, as a string. The contract names the
/// result; what the digest is, is left to the crate.
#[verifier::external_body]
fn blake3_hash(bytes: &[u8]) -> (r: String)
    ensures
        r@ == blake3_hex(bytes@),
{
    blake3::hash(bytes).to_hex().to_string()
}

/// `std::str::from_utf8(bytes).is_ok()`: the bytes are valid UTF-8.
#[verifier::external_body]
fn is_utf8(bytes: &[u8]) -> (r: bool)
    ensures
        r == vstd::utf8::valid_utf8(bytes@),
{
    std::str::from_utf8(bytes).is_ok()
}

/// The first `TEXT_PROBE_BYTES` bytes, or all of them.
pub open spec fn text_probe(bytes: Seq<u8>) -> Seq<u8> {
    if bytes.len() <= 8192 { bytes } else { bytes.take(8192) }
}

/// Text: the head of the file holds no NUL byte and is valid UTF-8.
pub open spec fn is_text(bytes: Seq<u8>) -> bool {
    !text_probe(bytes).contains(0u8) && vstd::utf8::valid_utf8(text_probe(bytes))
}

pub fn is_text_bytes(bytes: &[u8]) -> (r: bool)
    ensures
        r == is_text(bytes@),
{
    let n = if bytes.len() <= TEXT_PROBE_BYTES { bytes.len() } else { TEXT_PROBE_BYTES };
    let mut head: Vec<u8> = Vec::new();
    let mut i: usize = 0;
    while i < n
        invariant
            n <= bytes@.len(),
            n == (if bytes@.len() <= 8192 { bytes@.len() } else { 8192 }),
            i <= n,
            head@ == bytes@.take(i as int),
            forall|k: int| 0 <= k < i ==> bytes@[k] != 0u8,
        decreases n - i,
    {
        if bytes[i] == 0 {
            assert(text_probe(bytes@)[i as int] == 0u8);
            return false;
        }
        head.push(bytes[i]);
        assert(bytes@.take(i + 1) == bytes@.take(i as int).push(bytes@[i as int]));
        i = i + 1;
    }
    assert(head@ =~= text_probe(bytes@));
    is_utf8(head.as_slice())
}

/// The record of a regular file of `size` bytes whose content `bytes` was
/// read in full: hashed, and marked for the blob store when it is text of at
/// most `MAX_BLOB_BYTES` and not masked.
pub fn small_file(size: u64, bytes: &[u8], masked: bool) -> (r: Content)
    ensures
        r@ == (ContentV::File {
            size,
            hash: blake3_hex(bytes@),
            blob: !masked && size <= MAX_BLOB_BYTES && is_text(bytes@),
            masked,
        }),
{
    let hash = blake3_hash(bytes);
    let blob = !masked && size <= MAX_BLOB_BYTES && is_text_bytes(bytes);
    Content::File { size, hash, blob, masked }
}

/// The record of a regular file too large for the blob store: its hash,
/// computed while the file streamed through, and never its content.
pub fn streamed_file(size: u64, hash: String, masked: bool) -> (r: Content)
    ensures
        r@ == (ContentV::File { size, hash: hash@, blob: false, masked }),
{
    Content::File { size, hash, blob: false, masked }
}

/// The entry of a path: of its mode, the permission bits only, without the
/// bits that tell the kind of file.
pub fn entry_of(path: String, content: Content, st_mode: u32, uid: u32, gid: u32) -> (r: Entry)
    ensures
        r@.path == path@,
        r@.content == content@,
        r.mode == st_mode % 4096,
        r.uid == uid,
        r.gid == gid,
{
    let mode = st_mode & 0o7777;
    assert(st_mode & 0o7777 == st_mode % 4096) by (bit_vector);
    Entry { path, content, mode, uid, gid }
}

// ----------------------------------------------------------------------------
// The blob store.

/// The recorded text of the blobs a report needs, by hash, as the session's
/// blob store holds it. A hash with no text here has no readable blob.
#[derive(Debug, Clone, Default)]
pub struct Blobs {
    pub texts: Vec<(String, String)>,
}

pub open spec fn blob_pairs(s: Seq<(String, String)>) -> Seq<(Seq<char>, Seq<char>)> {
    s.map_values(|p: (String, String)| (p.0@, p.1@))
}

/// The text stored under `hash`: the first one recorded for it.
pub open spec fn stored_text(texts: Seq<(Seq<char>, Seq<char>)>, hash: Seq<char>) -> Option<Seq<char>>
    decreases texts.len(),
{
    if texts.len() == 0 {
        None
    } else if texts[0].0 == hash {
        Some(texts[0].1)
    } else {
        stored_text(texts.drop_first(), hash)
    }
}

/// The recorded text of an entry: only a file whose content went to the
/// blob store has one.
pub open spec fn blob_text_of(blobs: Seq<(Seq<char>, Seq<char>)>, e: EntryV) -> Option<Seq<char>> {
    match e.content {
        ContentV::File { hash, blob, .. } => if blob { stored_text(blobs, hash) } else { None },
        ContentV::Symlink { .. } => None,
    }
}

impl Blobs {
    pub open spec fn spec_texts(&self) -> Seq<(Seq<char>, Seq<char>)> {
        blob_pairs(self.texts@)
    }

    pub fn new() -> (r: Blobs)
        ensures
            r.spec_texts() == Seq::<(Seq<char>, Seq<char>)>::empty(),
    {
        let r = Blobs { texts: Vec::new() };
        assert(r.spec_texts() =~= Seq::<(Seq<char>, Seq<char>)>::empty());
        r
    }

    /// Records the text of the blob `hash`.
    pub fn insert(&mut self, hash: String, text: String)
        ensures
            final(self).spec_texts() == old(self).spec_texts().push((hash@, text@)),
    {
        let ghost p = (hash@, text@);
        self.texts.push((hash, text));
        assert(blob_pairs(self.texts@) =~= blob_pairs(old(self).texts@).push(p));
    }
}

/// Reads a blob back as text, if it was stored.
pub fn blob_text(blobs: &Blobs, entry: &Entry) -> (r: Option<String>)
    ensures
        match blob_text_of(blobs.spec_texts(), entry@) {
            Some(t) => r matches Some(x) && x@ == t,
            None => r.is_none(),
        },
{
    let hash = match &entry.content {
        Content::File { hash, blob, .. } => {
            if !*blob {
                return None;
            }
            hash
        },
        Content::Symlink { .. } => return None,
    };
    let ghost all = blobs.spec_texts();
    assert(blob_text_of(all, entry@) == stored_text(all, hash@));
    let mut i: usize = 0;
    assert(all.skip(0) == all);
    while i < blobs.texts.len()
        invariant
            i <= blobs.texts@.len(),
            all == blobs.spec_texts(),
            blob_text_of(all, entry@) == stored_text(all.skip(i as int), hash@),
        decreases blobs.texts.len() - i,
    {
        let ghost rest = all.skip(i as int);
        assert(rest[0] == (blobs.texts@[i as int].0@, blobs.texts@[i as int].1@));
        assert(rest.drop_first() == all.skip(i + 1));
        if blobs.texts[i].0 == *hash {
            assert(rest[0].0 == hash@);
            let t = blobs.texts[i].1.clone();
            assert(stored_text(rest, hash@) == Some(rest[0].1));
            return Some(t);
        }
        i = i + 1;
    }
    None
}

} // verus!
