//! Saved pages: named SQL files of a connection, and the tabs they are open in.
use crate::config::paths::Located;
use crate::config::ConfigError;
use crate::files::Stage;
use crate::text;
use vstd::prelude::*;

pub mod sidecar;
pub mod tabs;

pub use tabs::{Page, PageTabs, SaveOutcome};

verus! {

pub const PAGE_NAME_MAX_BYTES: usize = 255;

/// The name of a page's file: never empty, never a path, always `.sql` behind something.
#[derive(Debug, PartialEq, Eq, PartialOrd, Ord, Hash)]
pub struct PageName(String);

impl View for PageName {
    type V = Seq<char>;

    closed spec fn view(&self) -> Seq<char> {
        self.0@
    }
}

/// What went wrong with a page.
#[derive(Debug, Clone, PartialEq, Eq)]
pub enum PagesError {
    Path(ConfigError),
    InvalidName { name: String, reason: &'static str },
    AlreadyExists(String),
    NotFound(String),
    NotUtf8 { path: String },
    Read { path: String, cause: String },
    Write { path: String, cause: String },
}

/// Whether `s` ends in `.sql`.
pub open spec fn has_suffix(s: Seq<char>) -> bool {
    s.len() >= 4 && s.skip(s.len() - 4) == ".sql"@
}

/// What is wrong with a page's name, by its characters: the first rule that is broken.
pub open spec fn name_fault(s: Seq<char>) -> Option<Seq<char>> {
    if s.len() == 0 {
        Some("must not be empty"@)
    } else if text::byte_len(s) > PAGE_NAME_MAX_BYTES {
        Some("must not be longer than 255 bytes"@)
    } else if s.contains('/') || s.contains('\\') || s.contains('\0') {
        Some("must not contain '/', '\\', or a NUL byte"@)
    } else if s == "."@ || s == ".."@ {
        Some("must not be \".\" or \"..\""@)
    } else if s[0] == '.' {
        Some("must not start with '.'"@)
    } else if !has_suffix(s) {
        Some("must end with \".sql\""@)
    } else if s.len() == 4 {
        Some("must have a non-empty name before \".sql\""@)
    } else {
        None
    }
}

/// The reason for a name that the platform does not take as the name of one file.
pub open spec fn component_fault() -> Seq<char> {
    "is not a valid single path component"@
}

/// Whether `r` accepts the name `s`, or refuses it for `reason`.
pub open spec fn is_name_result(
    r: Result<PageName, PagesError>,
    s: Seq<char>,
    reason: Option<Seq<char>>,
) -> bool {
    match reason {
        None => r matches Ok(name) && name@ == s,
        Some(why) => r matches Err(PagesError::InvalidName { name, reason }) && name@ == s
            && reason@ == why,
    }
}

/// An accepted name cannot leave its directory, hide itself, or be anything but an SQL file.
pub proof fn law_accepted_name_is_a_file_name(s: Seq<char>)
    requires
        name_fault(s) is None,
    ensures
        !s.contains('/'),
        !s.contains('\\'),
        !s.contains('\0'),
        s[0] != '.',
        s != "."@,
        s != ".."@,
        5 <= s.len() <= PAGE_NAME_MAX_BYTES,
        s.take(s.len() - 4).len() > 0,
        s == s.take(s.len() - 4) + ".sql"@,
{
    text::lemma_byte_len_bounds(s);
    assert(s =~= s.take(s.len() - 4) + s.skip(s.len() - 4));
}

/// By its characters a name is accepted exactly if it is something and `.sql`, at most 255 bytes long,
/// without a slash, a backslash or a NUL, and does not start with a dot.
pub proof fn law_names_are_accepted_by_their_shape(s: Seq<char>)
    ensures
        name_fault(s) is None <==> {
            &&& exists|stem: Seq<char>| stem.len() > 0 && s == #[trigger] (stem + ".sql"@)
            &&& text::byte_len(s) <= 255
            &&& forall|i: int|
                0 <= i < s.len() ==> #[trigger] s[i] != '/' && s[i] != '\\' && s[i] != '\0'
            &&& s[0] != '.'
        },
{
    reveal_strlit(".sql");
    reveal_strlit(".");
    reveal_strlit("..");
    if name_fault(s) is None {
        law_accepted_name_is_a_file_name(s);
        let stem = s.take(s.len() - 4);
        assert(s == stem + ".sql"@);
        assert forall|i: int| 0 <= i < s.len() implies #[trigger] s[i] != '/' && s[i] != '\\' && s[i]
            != '\0' by {
            assert(s.contains(s[i]));
        }
    }
    if exists|stem: Seq<char>| stem.len() > 0 && s == #[trigger] (stem + ".sql"@) {
        let stem = choose|stem: Seq<char>| stem.len() > 0 && s == #[trigger] (stem + ".sql"@);
        assert(s.skip(s.len() - 4) =~= ".sql"@);
    }
}

/// The reason for which a name is refused names a rule that the name breaks.
pub proof fn law_refusal_names_a_broken_rule(s: Seq<char>)
    ensures
        name_fault(s) matches Some(why) ==> {
            ||| why == "must not be empty"@ && s.len() == 0
            ||| why == "must not be longer than 255 bytes"@ && text::byte_len(s) > 255
            ||| why == "must not contain '/', '\\', or a NUL byte"@ && exists|i: int|
                0 <= i < s.len() && (#[trigger] s[i] == '/' || s[i] == '\\' || s[i] == '\0')
            ||| why == "must not be \".\" or \"..\""@ && (s =~= seq!['.'] || s =~= seq!['.', '.'])
            ||| why == "must not start with '.'"@ && s.len() > 0 && s[0] == '.'
            ||| why == "must end with \".sql\""@ && !(exists|stem: Seq<char>|
                s == #[trigger] (stem + ".sql"@))
            ||| why == "must have a non-empty name before \".sql\""@ && s == ".sql"@
        },
{
    reveal_strlit(".sql");
    reveal_strlit(".");
    reveal_strlit("..");
    if exists|stem: Seq<char>| s == #[trigger] (stem + ".sql"@) {
        let stem = choose|stem: Seq<char>| s == #[trigger] (stem + ".sql"@);
        assert(s.skip(s.len() - 4) =~= ".sql"@);
    }
    if has_suffix(s) && s.len() == 4 {
        assert(s =~= s.skip(0));
    }
    if s.contains('/') || s.contains('\\') || s.contains('\0') {
        let i = choose|i: int|
            0 <= i < s.len() && (#[trigger] s[i] == '/' || s[i] == '\\' || s[i] == '\0');
        assert(s[i] == '/' || s[i] == '\\' || s[i] == '\0');
    }
}

/// A part of a path, as the platform reads it.
#[derive(Debug, Clone, PartialEq, Eq)]
pub enum PathPart {
    /// The name of a file or directory.
    Normal(String),
    /// A prefix, a root, or a step to the same or the parent directory.
    Other,
}

/// Whether the parts of a text are the name of one file, which is the whole text.
pub open spec fn is_one_name(parts: Seq<PathPart>, s: Seq<char>) -> bool {
    parts.len() == 1 && match parts[0] {
        PathPart::Normal(name) => name@ == s,
        PathPart::Other => false,
    }
}

/// Whether a text is the name of one file on every platform: there is something in it, it is no step
/// to the same or the parent directory, and nothing in it separates or marks a drive.
pub open spec fn one_name_everywhere(s: Seq<char>) -> bool {
    &&& s.len() > 0
    &&& s != "."@
    &&& s != ".."@
    &&& !s.contains('/')
    &&& !s.contains('\\')
    &&& !s.contains(':')
}

/// Whether a text is the name of one file on no platform: it is a step to the same or the parent
/// directory, or it holds the separator that every platform knows.
pub open spec fn one_name_nowhere(s: Seq<char>) -> bool {
    s == "."@ || s == ".."@ || s.contains('/')
}

/// Calls `std::path::Path::components`.
///
/// Claimed of it: a text that is not empty, not `.` or `..`, and holds no separator and no colon is
/// one name on every platform; `.`, `..` and a text with a `/` are not one name on any. What other
/// texts are is left to the platform.
#[verifier::external_body]
fn path_parts(s: &str) -> (parts: Vec<PathPart>)
    ensures
        one_name_everywhere(s@) ==> is_one_name(parts@, s@),
        one_name_nowhere(s@) ==> !is_one_name(parts@, s@),
{
    std::path::Path::new(s).components().map(|c| match c {
        std::path::Component::Normal(n) => PathPart::Normal(n.to_string_lossy().into_owned()),
        _ => PathPart::Other,
    }).collect()
}

/// Whether the parts of a text are the name of one file, which is the whole text.
pub fn is_one_component(parts: &Vec<PathPart>, s: &str) -> (b: bool)
    ensures
        b == is_one_name(parts@, s@),
{
    if parts.len() != 1 {
        return false;
    }
    match &parts[0] {
        PathPart::Normal(name) => text::same_text(name.as_str(), s),
        PathPart::Other => false,
    }
}

/// Whether the platform reads the text as the name of one file, and nothing else.
fn is_single_component(s: &str) -> (b: bool)
    ensures
        one_name_everywhere(s@) ==> b,
        one_name_nowhere(s@) ==> !b,
{
    let parts: Vec<PathPart> = path_parts(s);
    is_one_component(&parts, s)
}

fn invalid_name(s: &str, reason: &'static str) -> (e: PagesError)
    ensures
        e matches PagesError::InvalidName { name, reason: r } && name@ == s@ && r@ == reason@,
{
    PagesError::InvalidName { name: s.to_owned(), reason }
}

/// Whether `s` ends in `.sql`.
fn ends_with_suffix(s: &str) -> (b: bool)
    ensures
        b == has_suffix(s@),
{
    proof {
        reveal_strlit(".sql");
    }
    let n: usize = s.unicode_len();
    if n < 4 {
        return false;
    }
    let tail: &str = s.substring_char(n - 4, n);
    proof {
        assert(tail@ =~= s@.skip(s@.len() - 4));
    }
    text::same_text(tail, ".sql")
}

impl PageName {
    #[verifier::type_invariant]
    spec fn inv(&self) -> bool {
        name_fault(self.0@) is None
    }

    /// Accepts or refuses a name. Where its characters are in order, the platform has the last
    /// word on a name with a colon.
    pub fn new(s: &str) -> (r: Result<PageName, PagesError>)
        ensures
            name_fault(s@) is Some ==> is_name_result(r, s@, name_fault(s@)),
            name_fault(s@) is None && !s@.contains(':') ==> is_name_result(r, s@, None),
            name_fault(s@) is None ==> is_name_result(r, s@, None) || is_name_result(
                r,
                s@,
                Some(component_fault()),
            ),
    {
        PageName::checked(s, is_single_component(s))
    }

    /// Accepts or refuses a name, given whether the platform takes it as the name of one file.
    pub fn checked(s: &str, single_component: bool) -> (r: Result<PageName, PagesError>)
        ensures
            is_name_result(
                r,
                s@,
                if name_fault(s@) is Some {
                    name_fault(s@)
                } else if !single_component {
                    Some(component_fault())
                } else {
                    None
                },
            ),
    {
        if s.is_empty() {
            return Err(invalid_name(s, "must not be empty"));
        }
        if text::byte_count(s) > PAGE_NAME_MAX_BYTES {
            return Err(invalid_name(s, "must not be longer than 255 bytes"));
        }
        if text::has_char(s, '/') || text::has_char(s, '\\') || text::has_char(s, '\0') {
            return Err(invalid_name(s, "must not contain '/', '\\', or a NUL byte"));
        }
        if text::same_text(s, ".") || text::same_text(s, "..") {
            return Err(invalid_name(s, "must not be \".\" or \"..\""));
        }
        if text::starts_with_char(s, '.') {
            return Err(invalid_name(s, "must not start with '.'"));
        }
        if !ends_with_suffix(s) {
            return Err(invalid_name(s, "must end with \".sql\""));
        }
        if s.unicode_len() == 4 {
            return Err(invalid_name(s, "must have a non-empty name before \".sql\""));
        }
        if !single_component {
            return Err(invalid_name(s, "is not a valid single path component"));
        }
        Ok(PageName(s.to_owned()))
    }

    pub fn as_str(&self) -> (s: &str)
        ensures
            s@ == self@,
            name_fault(s@) is None,
    {
        proof {
            use_type_invariant(self);
        }
        self.0.as_str()
    }

    /// The name without `.sql`.
    pub fn stem(&self) -> (s: &str)
        ensures
            s@ == stem_of(self@),
    {
        proof {
            use_type_invariant(self);
        }
        let s: &str = self.0.as_str();
        let n: usize = s.unicode_len();
        proof {
            assert(s@.subrange(0, n - 4) =~= stem_of(s@));
        }
        s.substring_char(0, n - 4)
    }
}

impl Clone for PageName {
    fn clone(&self) -> (copy: Self)
        ensures
            copy@ == self@,
    {
        proof {
            use_type_invariant(self);
        }
        PageName(self.0.clone())
    }
}

/// A name without `.sql`.
pub open spec fn stem_of(s: Seq<char>) -> Seq<char> {
    s.take(s.len() - 4)
}

/// Whether two names are the same.
pub(crate) fn same_name(a: &PageName, b: &PageName) -> (same: bool)
    ensures
        same == (a@ == b@),
{
    text::same_text(a.as_str(), b.as_str())
}

/// A connection's directory of saved pages.
#[derive(Debug, Clone, PartialEq, Eq)]
pub struct PagesDir<P> {
    root: P,
}

/// The kind of a failure to read or remove a file.
#[derive(Debug, Clone, PartialEq, Eq)]
pub struct FileFailure {
    pub not_found: bool,
    pub cause: String,
}

/// What reading a page's file gives: its text, if it is valid UTF-8.
pub open spec fn is_page_read(
    name: Seq<char>,
    path: String,
    read: Result<Vec<u8>, FileFailure>,
    r: Result<String, PagesError>,
) -> bool {
    match read {
        Ok(bytes) => if vstd::utf8::valid_utf8(bytes@) {
            r matches Ok(t) && t@ == vstd::utf8::decode_utf8(bytes@)
        } else {
            r == Err::<String, PagesError>(PagesError::NotUtf8 { path })
        },
        Err(f) => r is Err && is_read_error(r->Err_0, name, path, f),
    }
}

/// A page whose file holds the bytes of a text, as saving leaves it, is read as that text.
pub proof fn law_saved_page_reads_back(
    name: Seq<char>,
    path: String,
    contents: Seq<char>,
    bytes: Vec<u8>,
    r: Result<String, PagesError>,
)
    requires
        bytes@ == vstd::utf8::encode_utf8(contents),
        is_page_read(name, path, Ok(bytes), r),
    ensures
        r matches Ok(t) && t@ == contents,
{
    vstd::utf8::encode_utf8_valid_utf8(contents);
    vstd::utf8::encode_utf8_decode_utf8(contents);
}

impl<P> PagesDir<P> {
    pub closed spec fn spec_root(&self) -> P {
        self.root
    }

    /// The directory at a place.
    pub fn at(root: P) -> (d: Self)
        ensures
            d.spec_root() == root,
    {
        PagesDir { root }
    }

    pub fn root(&self) -> (r: &P)
        ensures
            *r == self.spec_root(),
    {
        &self.root
    }

    /// The file of a page: its name, directly under the directory.
    pub fn path_of(&self, name: &PageName) -> (l: Located<&P>)
        ensures
            *l.base == self.spec_root(),
            text::views(l.segments@) == seq![name@],
    {
        let mut segments: Vec<String> = Vec::new();
        segments.push(name.as_str().to_owned());
        proof {
            assert(text::views(segments@) =~= seq![name@]);
        }
        Located { base: &self.root, segments }
    }

    /// The pages in the directory at `path`, in order, of the names of the files that were found
    /// there, or why they could not be listed.
    pub fn list(&self, path: String, files: Result<Vec<String>, String>) -> (r: Result<
        Vec<PageName>,
        PagesError,
    >)
        ensures
            match files {
                Err(cause) => r == Err::<Vec<PageName>, PagesError>(
                    PagesError::Read { path, cause },
                ),
                Ok(files) => {
                    &&& r matches Ok(sorted)
                    &&& in_name_order(name_views(sorted@))
                    &&& exists|names: Seq<Option<Seq<char>>>| #[trigger]
                        accepts(text::views(files@), names) && name_views(sorted@).to_multiset()
                            == accepted(names, names.len() as int).to_multiset()
                },
            },
    {
        match files {
            Err(cause) => Err(PagesError::Read { path, cause }),
            Ok(files) => Ok(list_files(&files)),
        }
    }

    /// The text of the page's file at `path`, of what was read of it: `None` is a file that was read
    /// but is not UTF-8.
    pub fn load(
        &self,
        name: &PageName,
        path: String,
        read: Result<Vec<u8>, FileFailure>,
    ) -> (r: Result<String, PagesError>)
        ensures
            is_page_read(name@, path, read, r),
    {
        match read {
            Ok(bytes) => match text::from_utf8(bytes) {
                Some(t) => Ok(t),
                None => Err(PagesError::NotUtf8 { path }),
            },
            Err(f) => Err(read_error(name, path, f)),
        }
    }

    /// What became of writing a page's file: `failed` names the stage that failed, and why.
    pub fn save(
        &self,
        directory: String,
        temporary: String,
        path: String,
        failed: Option<(Stage, String)>,
    ) -> (r: Result<(), PagesError>)
        ensures
            match failed {
                None => r is Ok,
                Some((stage, cause)) => r == Err::<(), PagesError>(
                    PagesError::Write {
                        path: match stage {
                            Stage::MakeDirectory => directory,
                            Stage::OpenTemporary => temporary,
                            Stage::WriteTemporary => temporary,
                            Stage::Rename => path,
                        },
                        cause,
                    },
                ),
            },
    {
        match failed {
            None => Ok(()),
            Some((stage, cause)) => Err(
                PagesError::Write {
                    path: crate::files::blamed(stage, directory, temporary, path),
                    cause,
                },
            ),
        }
    }

    /// What became of renaming the file of `from`, which stood at `from_path`, to `to`: refused
    /// where there is a file of that name, else `renamed`.
    pub fn rename(
        &self,
        from: &PageName,
        to: &PageName,
        to_exists: bool,
        from_path: String,
        renamed: Result<(), FileFailure>,
    ) -> (r: Result<(), PagesError>)
        ensures
            if to_exists {
                r matches Err(PagesError::AlreadyExists(n)) && n@ == to@
            } else {
                match renamed {
                    Ok(_) => r is Ok,
                    Err(f) => r is Err && is_read_error(r->Err_0, from@, from_path, f),
                }
            },
    {
        match check_rename(to, to_exists) {
            Err(e) => Err(e),
            Ok(()) => match renamed {
                Ok(_) => Ok(()),
                Err(f) => Err(read_error(from, from_path, f)),
            },
        }
    }

    /// What became of removing a page's file.
    pub fn delete(&self, name: &PageName, path: String, removed: Result<(), FileFailure>) -> (r:
        Result<(), PagesError>)
        ensures
            match removed {
                Ok(_) => r is Ok,
                Err(f) => r is Err && is_read_error(r->Err_0, name@, path, f),
            },
    {
        match removed {
            Ok(_) => Ok(()),
            Err(f) => Err(read_error(name, path, f)),
        }
    }
}

/// The error for a page's file that could not be read, renamed or removed.
pub open spec fn is_read_error(
    e: PagesError,
    name: Seq<char>,
    path: String,
    failure: FileFailure,
) -> bool {
    if failure.not_found {
        e matches PagesError::NotFound(n) && n@ == name
    } else {
        e == (PagesError::Read { path, cause: failure.cause })
    }
}

fn read_error(name: &PageName, path: String, failure: FileFailure) -> (e: PagesError)
    ensures
        is_read_error(e, name@, path, failure),
{
    if failure.not_found {
        PagesError::NotFound(name.as_str().to_owned())
    } else {
        PagesError::Read { path, cause: failure.cause }
    }
}

/// Whether a page may be renamed to `to`: not onto a file that exists.
pub(crate) fn check_rename(to: &PageName, to_exists: bool) -> (r: Result<(), PagesError>)
    ensures
        r is Ok <==> !to_exists,
        r matches Err(e) ==> (e matches PagesError::AlreadyExists(n) && n@ == to@),
{
    if to_exists {
        Err(PagesError::AlreadyExists(to.as_str().to_owned()))
    } else {
        Ok(())
    }
}

/// The order of texts by their bytes.
pub open spec fn bytes_le(a: Seq<u8>, b: Seq<u8>) -> bool
    decreases a.len(),
{
    if a.len() == 0 {
        true
    } else if b.len() == 0 {
        false
    } else if a[0] != b[0] {
        a[0] < b[0]
    } else {
        bytes_le(a.drop_first(), b.drop_first())
    }
}

proof fn lemma_bytes_le_total(a: Seq<u8>, b: Seq<u8>)
    ensures
        bytes_le(a, b) || bytes_le(b, a),
    decreases a.len(),
{
    if a.len() > 0 && b.len() > 0 && a[0] == b[0] {
        lemma_bytes_le_total(a.drop_first(), b.drop_first());
    }
}

proof fn lemma_bytes_le_transitive(a: Seq<u8>, b: Seq<u8>, c: Seq<u8>)
    requires
        bytes_le(a, b),
        bytes_le(b, c),
    ensures
        bytes_le(a, c),
    decreases a.len(),
{
    if a.len() > 0 && b.len() > 0 && c.len() > 0 && a[0] == b[0] && b[0] == c[0] {
        lemma_bytes_le_transitive(a.drop_first(), b.drop_first(), c.drop_first());
    }
}

/// The order of page names.
pub open spec fn name_le(a: Seq<char>, b: Seq<char>) -> bool {
    bytes_le(vstd::utf8::encode_utf8(a), vstd::utf8::encode_utf8(b))
}

/// Names are ordered by their bytes: where they first differ, the smaller byte comes first, and a name
/// comes before all that begin with it. No two names come before each other, and of any two one
/// does.
pub proof fn law_names_are_ordered_by_their_bytes(a: Seq<char>, b: Seq<char>, c: Seq<char>, k: int)
    ensures
        name_le(a, b) || name_le(b, a),
        name_le(a, b) && name_le(b, a) ==> a == b,
        name_le(a, b) && name_le(b, c) ==> name_le(a, c),
        ({
            let x = vstd::utf8::encode_utf8(a);
            let y = vstd::utf8::encode_utf8(b);
            &&& 0 <= k <= x.len() && k <= y.len() && x.take(k) == y.take(k) && (k == x.len() || (k
                < y.len() && x[k] < y[k])) ==> name_le(a, b)
            &&& 0 <= k < x.len() && k <= y.len() && x.take(k) == y.take(k) && (k == y.len() || y[k]
                < x[k]) ==> !name_le(a, b)
        }),
{
    let x = vstd::utf8::encode_utf8(a);
    let y = vstd::utf8::encode_utf8(b);
    lemma_bytes_le_total(x, y);
    if name_le(a, b) && name_le(b, a) {
        lemma_bytes_le_antisymmetric(x, y);
        text::lemma_encode_injective(a, b);
    }
    if name_le(a, b) && name_le(b, c) {
        lemma_bytes_le_transitive(x, y, vstd::utf8::encode_utf8(c));
    }
    if 0 <= k <= x.len() && k <= y.len() && x.take(k) == y.take(k) {
        lemma_bytes_le_at(x, y, k);
    }
}

proof fn lemma_bytes_le_antisymmetric(a: Seq<u8>, b: Seq<u8>)
    requires
        bytes_le(a, b),
        bytes_le(b, a),
    ensures
        a == b,
    decreases a.len(),
{
    if a.len() > 0 && b.len() > 0 {
        lemma_bytes_le_antisymmetric(a.drop_first(), b.drop_first());
        assert(a =~= seq![a[0]] + a.drop_first());
        assert(b =~= seq![b[0]] + b.drop_first());
    }
    assert(a =~= b);
}

proof fn lemma_bytes_le_at(a: Seq<u8>, b: Seq<u8>, k: int)
    requires
        0 <= k <= a.len(),
        k <= b.len(),
        a.take(k) == b.take(k),
    ensures
        k == a.len() || (k < b.len() && a[k] < b[k]) ==> bytes_le(a, b),
        k < a.len() && (k == b.len() || b[k] < a[k]) ==> !bytes_le(a, b),
    decreases k,
{
    if k > 0 {
        assert(a[0] == a.take(k)[0]);
        assert(b[0] == b.take(k)[0]);
        assert(a.drop_first().take(k - 1) =~= a.take(k).drop_first());
        assert(b.drop_first().take(k - 1) =~= b.take(k).drop_first());
        lemma_bytes_le_at(a.drop_first(), b.drop_first(), k - 1);
    }
}

/// The views of page names.
pub open spec fn name_views(names: Seq<PageName>) -> Seq<Seq<char>> {
    Seq::new(names.len(), |i: int| names[i]@)
}

/// Each name comes before all that follow it.
pub open spec fn in_name_order(names: Seq<Seq<char>>) -> bool {
    forall|i: int, j: int|
        0 <= i < j < names.len() ==> name_le(#[trigger] names[i], #[trigger] names[j])
}

fn comes_first(a: &PageName, b: &PageName) -> (le: bool)
    ensures
        le == name_le(a@, b@),
{
    let x: &[u8] = a.as_str().as_bytes();
    let y: &[u8] = b.as_str().as_bytes();
    let n: usize = x.len();
    let m: usize = y.len();
    let mut i: usize = 0;
    proof {
        assert(x@.skip(0) =~= x@);
        assert(y@.skip(0) =~= y@);
    }
    while i < n && i < m && x[i] == y[i]
        invariant
            n == x@.len(),
            m == y@.len(),
            i <= n,
            i <= m,
            bytes_le(x@, y@) == bytes_le(x@.skip(i as int), y@.skip(i as int)),
        decreases n - i,
    {
        proof {
            assert(x@.skip(i as int).drop_first() =~= x@.skip(i + 1));
            assert(y@.skip(i as int).drop_first() =~= y@.skip(i + 1));
            assert(x@.skip(i as int)[0] == x@[i as int]);
            assert(y@.skip(i as int)[0] == y@[i as int]);
        }
        i = i + 1;
    }
    proof {
        if i < n {
            assert(x@.skip(i as int)[0] == x@[i as int]);
        }
        if i < m {
            assert(y@.skip(i as int)[0] == y@[i as int]);
        }
    }
    if i == n {
        true
    } else if i == m {
        false
    } else {
        x[i] < y[i]
    }
}

/// The names in order.
pub fn sort_names(names: Vec<PageName>) -> (sorted: Vec<PageName>)
    ensures
        in_name_order(name_views(sorted@)),
        sorted@.to_multiset() == names@.to_multiset(),
{
    let mut rest: Vec<PageName> = names;
    let mut sorted: Vec<PageName> = Vec::new();
    proof {
        assert(rest@.to_multiset().add(sorted@.to_multiset()) =~= names@.to_multiset()) by {
            broadcast use vstd::seq_lib::group_to_multiset_ensures;
        }
    }
    while rest.len() > 0
        invariant
            in_name_order(name_views(sorted@)),
            rest@.to_multiset().add(sorted@.to_multiset()) == names@.to_multiset(),
        decreases rest@.len(),
    {
        let ghost rest_before = rest@;
        let ghost before = sorted@;
        match rest.pop() {
            None => {},
            Some(name) => {
                let n: usize = sorted.len();
                let mut i: usize = 0;
                while i < n && !comes_first(&name, &sorted[i])
                    invariant
                        n == sorted@.len(),
                        i <= n,
                        sorted@ == before,
                        in_name_order(name_views(sorted@)),
                        forall|j: int|
                            0 <= j < i ==> !name_le(name@, #[trigger] name_views(sorted@)[j]),
                    decreases n - i,
                {
                    i = i + 1;
                }
                sorted.insert(i, name);
                proof {
                    let v = name_views(before);
                    let w = name_views(sorted@);
                    assert(w =~= v.insert(i as int, name@));
                    assert forall|a: int, b: int| 0 <= a < b < w.len() implies name_le(
                        #[trigger] w[a],
                        #[trigger] w[b],
                    ) by {
                        if a < i && b == i {
                            assert(!name_le(name@, v[a]));
                            lemma_bytes_le_total(
                                vstd::utf8::encode_utf8(name@),
                                vstd::utf8::encode_utf8(v[a]),
                            );
                        } else if a == i && b > i {
                            assert(name_le(name@, v[i as int]));
                            if b - 1 > i {
                                assert(name_le(v[i as int], v[b - 1]));
                                lemma_bytes_le_transitive(
                                    vstd::utf8::encode_utf8(name@),
                                    vstd::utf8::encode_utf8(v[i as int]),
                                    vstd::utf8::encode_utf8(v[b - 1]),
                                );
                            }
                        } else {
                            let x = if a < i { a } else { a - 1 };
                            let y = if b < i { b } else { b - 1 };
                            assert(name_le(v[x], v[y]));
                        }
                    }
                    broadcast use vstd::seq_lib::group_to_multiset_ensures;
                    assert(rest_before =~= rest@.push(name));
                    assert(sorted@.to_multiset() =~= before.to_multiset().insert(name));
                    assert(rest_before.to_multiset() =~= rest@.to_multiset().insert(name));
                    assert(rest@.to_multiset().add(sorted@.to_multiset())
                        =~= rest_before.to_multiset().add(before.to_multiset()));
                }
            },
        }
    }
    proof {
        broadcast use vstd::seq_lib::group_to_multiset_ensures;
        assert(rest@ =~= Seq::<PageName>::empty());
        assert(rest@.to_multiset().len() == 0);
        assert(rest@.to_multiset().add(sorted@.to_multiset()) =~= sorted@.to_multiset());
    }
    sorted
}

/// Whether `names[i]` is what the rules make of `files[i]`: the name, or `None` for one that is
/// refused. A name with a colon that breaks no other rule may be either, as the platform decides.
pub open spec fn accepts(files: Seq<Seq<char>>, names: Seq<Option<Seq<char>>>) -> bool {
    &&& names.len() == files.len()
    &&& forall|i: int|
        0 <= i < files.len() ==> if name_fault(files[i]) is Some {
            (#[trigger] names[i]) is None
        } else if !files[i].contains(':') {
            names[i] == Some(files[i])
        } else {
            names[i] is None || names[i] == Some(files[i])
        }
}

/// The names among the first `n`.
pub open spec fn accepted(names: Seq<Option<Seq<char>>>, n: int) -> Seq<Seq<char>>
    decreases n,
{
    if n <= 0 {
        Seq::empty()
    } else {
        match names[n - 1] {
            Some(name) => accepted(names, n - 1).push(name),
            None => accepted(names, n - 1),
        }
    }
}

/// A directory's pages are its files whose names are accepted: each such name without a colon is
/// listed, once for each file, and no other file is.
pub proof fn law_listed_pages_are_the_accepted_files(
    files: Seq<Seq<char>>,
    names: Seq<Option<Seq<char>>>,
    i: int,
    n: int,
)
    requires
        accepts(files, names),
        0 <= i < n <= files.len(),
    ensures
        ({
            let listed = accepted(names, n);
            let k = accepted(names, i).len() as int;
            &&& k <= i
            &&& k <= listed.len() <= n
            &&& name_fault(files[i]) is None && !files[i].contains(':') ==> k < listed.len()
                && listed[k] == files[i]
            &&& name_fault(files[i]) is Some ==> accepted(names, i + 1) == accepted(names, i)
            &&& forall|j: int|
                0 <= j < listed.len() ==> files.contains(#[trigger] listed[j]) && name_fault(
                    listed[j],
                ) is None
        }),
    decreases n,
{
    let before = accepted(names, n - 1);
    let listed = accepted(names, n);
    if i < n - 1 {
        law_listed_pages_are_the_accepted_files(files, names, i, n - 1);
    } else if n > 1 {
        law_listed_pages_are_the_accepted_files(files, names, n - 2, n - 1);
    }
    assert(names[n - 1] is None || names[n - 1] == Some(files[n - 1]));
    assert(names[i] is None || names[i] == Some(files[i]));
    assert forall|j: int| 0 <= j < listed.len() implies files.contains(#[trigger] listed[j])
        && name_fault(listed[j]) is None by {
        if j < before.len() {
            assert(listed[j] == before[j]);
        }
    }
}

/// Reading a page's file gives a text exactly if the file could be read and is UTF-8, and that text has
/// the file's bytes; a file that is not there is told from one that cannot be read.
pub proof fn law_reading_a_page_keeps_its_bytes(
    name: Seq<char>,
    path: String,
    read: Result<Vec<u8>, FileFailure>,
    r: Result<String, PagesError>,
)
    requires
        is_page_read(name, path, read, r),
    ensures
        r matches Ok(t) ==> (read matches Ok(bytes) && vstd::utf8::encode_utf8(t@) == bytes@),
        r is Err && read is Ok ==> r->Err_0 == (PagesError::NotUtf8 { path }),
        read matches Err(f) ==> r is Err && (r->Err_0 is NotFound <==> f.not_found) && (
        r->Err_0 is Read <==> !f.not_found),
{
    if r is Ok {
        vstd::utf8::decode_utf8_encode_utf8((read->Ok_0)@);
    }
}

/// The views of optional names.
pub open spec fn opt_name_views(names: Seq<Option<PageName>>) -> Seq<Option<Seq<char>>> {
    Seq::new(
        names.len(),
        |i: int|
            match names[i] {
                Some(n) => Some(n@),
                None => None,
            },
    )
}

/// What the rules make of each file's name.
pub fn accept_names(files: &Vec<String>) -> (names: Vec<Option<PageName>>)
    ensures
        accepts(text::views(files@), opt_name_views(names@)),
{
    let mut names: Vec<Option<PageName>> = Vec::new();
    for i in 0..files.len()
        invariant
            names@.len() == i,
            accepts(text::views(files@).take(i as int), opt_name_views(names@)),
    {
        let ghost before = names@;
        match PageName::new(files[i].as_str()) {
            Ok(name) => names.push(Some(name)),
            Err(_) => names.push(None),
        }
        proof {
            let a = opt_name_views(before);
            let b = opt_name_views(names@);
            let f = text::views(files@).take(i + 1);
            assert forall|k: int| 0 <= k < i + 1 implies if name_fault(f[k]) is Some {
                (#[trigger] b[k]) is None
            } else if !f[k].contains(':') {
                b[k] == Some(f[k])
            } else {
                b[k] is None || b[k] == Some(f[k])
            } by {
                if k < i {
                    assert(b[k] == a[k]);
                    assert(f[k] == text::views(files@).take(i as int)[k]);
                }
            }
        }
    }
    proof {
        assert(text::views(files@).take(files@.len() as int) =~= text::views(files@));
    }
    names
}

/// The names that are there, in order.
pub fn sort_accepted(names: Vec<Option<PageName>>) -> (sorted: Vec<PageName>)
    ensures
        in_name_order(name_views(sorted@)),
        name_views(sorted@).to_multiset() == accepted(
            opt_name_views(names@),
            names@.len() as int,
        ).to_multiset(),
{
    let mut kept: Vec<PageName> = Vec::new();
    let ghost all = opt_name_views(names@);
    for i in 0..names.len()
        invariant
            all == opt_name_views(names@),
            name_views(kept@) == accepted(all, i as int),
    {
        match &names[i] {
            Some(name) => {
                let ghost before = kept@;
                kept.push(name.clone());
                proof {
                    assert(name_views(kept@) =~= name_views(before).push(name@));
                }
            },
            None => {},
        }
    }
    let ghost unsorted = kept@;
    let sorted: Vec<PageName> = sort_names(kept);
    proof {
        lemma_same_names(sorted@, unsorted);
    }
    sorted
}

/// The pages among the files of a directory, in order.
pub fn list_files(files: &Vec<String>) -> (sorted: Vec<PageName>)
    ensures
        in_name_order(name_views(sorted@)),
        exists|names: Seq<Option<Seq<char>>>| #[trigger]
            accepts(text::views(files@), names) && name_views(sorted@).to_multiset() == accepted(
                names,
                names.len() as int,
            ).to_multiset(),
{
    let names: Vec<Option<PageName>> = accept_names(files);
    sort_accepted(names)
}

/// The views of a rearrangement are a rearrangement of the views.
proof fn lemma_same_names(a: Seq<PageName>, b: Seq<PageName>)
    requires
        a.to_multiset() == b.to_multiset(),
    ensures
        name_views(a).to_multiset() == name_views(b).to_multiset(),
    decreases a.len(),
{
    broadcast use vstd::seq_lib::group_to_multiset_ensures;

    assert(a.len() == a.to_multiset().len());
    assert(b.len() == b.to_multiset().len());
    if a.len() == 0 {
        assert(name_views(a) =~= name_views(b));
    } else {
        let x = a.last();
        assert(a.to_multiset().contains(x));
        assert(b.contains(x));
        let k = b.index_of(x);
        assert(b[k] == x);
        let c = b.remove(k);
        assert(a =~= a.drop_last().push(x));
        assert(c.to_multiset() =~= b.to_multiset().remove(x));
        assert(a.drop_last().to_multiset() =~= a.to_multiset().remove(x)) by {
            assert(a.to_multiset() =~= a.drop_last().to_multiset().insert(x));
        }
        lemma_same_names(a.drop_last(), c);
        assert(name_views(a) =~= name_views(a.drop_last()).push(x@));
        assert(name_views(c) =~= name_views(b).remove(k));
        assert(name_views(b) =~= name_views(c).insert(k, x@));
        assert(name_views(a).to_multiset() =~= name_views(a.drop_last()).to_multiset().insert(x@));
        assert(name_views(b).to_multiset() =~= name_views(c).to_multiset().insert(x@));
    }
}

/// The text of an error.
pub open spec fn message_of(e: PagesError) -> Seq<char> {
    match e {
        PagesError::Path(c) => crate::config::message_of(c@),
        PagesError::InvalidName { name, reason } => "invalid page name "@ + text::quoted(name@)
            + ": "@ + reason@,
        PagesError::AlreadyExists(name) => "a page named "@ + text::quoted(name@)
            + " already exists"@,
        PagesError::NotFound(name) => "no page named "@ + text::quoted(name@),
        PagesError::NotUtf8 { path } => path@ + " is not valid UTF-8"@,
        PagesError::Read { path, cause } => "failed to read "@ + path@,
        PagesError::Write { path, cause } => "failed to write "@ + path@,
    }
}

/// The text of an error tells what it is about: the page's name and what is wrong with it, or the
/// file.
pub proof fn law_page_errors_tell_what_they_are_about(e: PagesError)
    ensures
        match e {
            PagesError::Path(c) => true,
            PagesError::InvalidName { name, reason } => text::occurs(
                message_of(e),
                text::quoted(name@),
            ) && text::occurs(message_of(e), reason@),
            PagesError::AlreadyExists(name) => text::occurs(message_of(e), text::quoted(name@)),
            PagesError::NotFound(name) => text::occurs(message_of(e), text::quoted(name@)),
            PagesError::NotUtf8 { path } => text::occurs(message_of(e), path@),
            PagesError::Read { path, cause } => text::occurs(message_of(e), path@),
            PagesError::Write { path, cause } => text::occurs(message_of(e), path@),
        },
{
    let m = message_of(e);
    let none = Seq::<char>::empty();
    match e {
        PagesError::Path(c) => {},
        PagesError::InvalidName { name, reason } => {
            let q = text::quoted(name@);
            text::lemma_occurs_in(m, "invalid page name "@, q, ": "@ + reason@);
            text::lemma_occurs_in(m, "invalid page name "@ + q + ": "@, reason@, none);
        },
        PagesError::AlreadyExists(name) => {
            text::lemma_occurs_in(m, "a page named "@, text::quoted(name@), " already exists"@);
        },
        PagesError::NotFound(name) => {
            text::lemma_occurs_in(m, "no page named "@, text::quoted(name@), none);
        },
        PagesError::NotUtf8 { path } => {
            text::lemma_occurs_in(m, none, path@, " is not valid UTF-8"@);
        },
        PagesError::Read { path, cause } => {
            text::lemma_occurs_in(m, "failed to read "@, path@, none);
        },
        PagesError::Write { path, cause } => {
            text::lemma_occurs_in(m, "failed to write "@, path@, none);
        },
    }
}

impl PagesError {
    /// The text of the error.
    pub fn message(&self) -> (s: String)
        ensures
            s@ == message_of(*self),
    {
        match self {
            PagesError::Path(c) => c.message(),
            PagesError::InvalidName { name, reason } => {
                let mut s: String = "invalid page name ".to_owned();
                s.append(text::quote(name.as_str()).as_str());
                s.append(": ");
                s.append(reason);
                s
            },
            PagesError::AlreadyExists(name) => {
                let mut s: String = "a page named ".to_owned();
                s.append(text::quote(name.as_str()).as_str());
                s.append(" already exists");
                s
            },
            PagesError::NotFound(name) => {
                let mut s: String = "no page named ".to_owned();
                s.append(text::quote(name.as_str()).as_str());
                s
            },
            PagesError::NotUtf8 { path } => {
                let mut s: String = path.clone();
                s.append(" is not valid UTF-8");
                s
            },
            PagesError::Read { path, cause } => {
                let mut s: String = "failed to read ".to_owned();
                s.append(path.as_str());
                s
            },
            PagesError::Write { path, cause } => {
                let mut s: String = "failed to write ".to_owned();
                s.append(path.as_str());
                s
            },
        }
    }
}

} // verus!
