//! Where the program keeps its files.
use super::{ConfigError, CONFIG_FILE_NAME};
use crate::text;
use directories::ProjectDirs;
use std::path::PathBuf;
use vstd::prelude::*;

verus! {

pub const CONFIG_ENV_VAR: &'static str = "RATWARREN_CONFIG";

pub const DATA_ENV_VAR: &'static str = "RATWARREN_DATA_DIR";

pub const SANITIZED_STEM_MAX: usize = 40;

/// `std::path::PathBuf`, carried through as it is.
#[verifier::external_type_specification]
#[verifier::external_body]
pub struct ExPathBuf(PathBuf);

/// A directory or file: `base`, joined with each of `segments` in turn.
#[derive(Debug, Clone, PartialEq, Eq)]
pub struct Located<P> {
    pub base: P,
    pub segments: Vec<String>,
}

impl<P> Located<P> {
    /// `base` itself.
    fn at(base: P) -> (l: Self)
        ensures
            l.base == base,
            l.segments@.len() == 0,
    {
        Located { base, segments: Vec::new() }
    }

    /// Goes one step down.
    fn join(self, segment: String) -> (l: Self)
        ensures
            l.base == self.base,
            text::views(l.segments@) == text::views(self.segments@).push(segment@),
    {
        let Located { base, mut segments } = self;
        segments.push(segment);
        proof {
            assert(text::views(segments@) =~= text::views(self.segments@).push(segment@));
        }
        Located { base, segments }
    }
}

/// The value of an environment variable, and whether it is empty.
#[derive(Debug, Clone, PartialEq, Eq)]
pub struct EnvValue<P> {
    pub value: P,
    pub is_empty: bool,
}

/// The directories of the platform for this program's configuration and data.
pub struct PlatformDirs {
    pub config_dir: PathBuf,
    pub data_dir: PathBuf,
}

/// The name under which the platform keeps this program's directories.
pub const APPLICATION: &'static str = "ratwarren";

/// Calls `directories::ProjectDirs::from` and reads off its `config_dir` and `data_dir`.
///
/// It is asked for this program's directories alone. Nothing is claimed of the result: it depends on
/// the platform and the environment.
#[verifier::external_body]
fn platform_dirs(qualifier: &str, organization: &str, application: &str) -> (dirs: Option<
    PlatformDirs,
>)
    requires
        qualifier@ == ""@,
        organization@ == ""@,
        application@ == APPLICATION@,
{
    let dirs = ProjectDirs::from(qualifier, organization, application)?;
    Some(
        PlatformDirs {
            config_dir: dirs.config_dir().to_path_buf(),
            data_dir: dirs.data_dir().to_path_buf(),
        },
    )
}

/// The directory for the configuration, of those that the platform has.
pub fn config_dir_of(dirs: Option<PlatformDirs>) -> (dir: Option<PathBuf>)
    ensures
        dir == (match dirs {
            Some(d) => Some(d.config_dir),
            None => None,
        }),
{
    match dirs {
        Some(d) => Some(d.config_dir),
        None => None,
    }
}

/// The directory for data, of those that the platform has.
pub fn data_dir_of(dirs: Option<PlatformDirs>) -> (dir: Option<PathBuf>)
    ensures
        dir == (match dirs {
            Some(d) => Some(d.data_dir),
            None => None,
        }),
{
    match dirs {
        Some(d) => Some(d.data_dir),
        None => None,
    }
}

/// Whether `r` is the place of the configuration file.
pub open spec fn is_config_place<P>(
    override_value: Option<P>,
    config_dir: Option<P>,
    r: Result<Located<P>, ConfigError>,
) -> bool {
    match (override_value, config_dir) {
        (Some(path), _) => r is Ok && r->Ok_0.base == path && r->Ok_0.segments@.len() == 0,
        (None, Some(dir)) => r is Ok && r->Ok_0.base == dir && text::views(r->Ok_0.segments@)
            == seq![CONFIG_FILE_NAME@],
        (None, None) => r == Err::<Located<P>, ConfigError>(ConfigError::NoConfigDir),
    }
}

/// The file that the user names is taken whatever the platform has; else it is `config.toml` directly
/// in the platform's directory; there is none exactly where there is neither.
pub proof fn law_the_named_config_file_goes_first<P>(
    override_value: Option<P>,
    config_dir: Option<P>,
    other_dir: Option<P>,
    r: Result<Located<P>, ConfigError>,
)
    requires
        is_config_place(override_value, config_dir, r),
    ensures
        r is Err <==> override_value is None && config_dir is None,
        override_value is Some ==> is_config_place(override_value, other_dir, r)
            && r->Ok_0.base == override_value->0 && r->Ok_0.segments@.len() == 0,
        override_value is None && config_dir is Some ==> r->Ok_0.base == config_dir->0 && text::views(
            r->Ok_0.segments@,
        ) == seq!["config.toml"@],
{
}

/// Whether `r` is the data directory.
pub open spec fn is_data_place<P>(
    override_value: Option<EnvValue<P>>,
    data_dir: Option<P>,
    r: Result<Located<P>, ConfigError>,
) -> bool {
    if override_value is Some && !override_value->0.is_empty {
        r is Ok && r->Ok_0.base == override_value->0.value && r->Ok_0.segments@.len() == 0
    } else {
        match data_dir {
            Some(dir) => r is Ok && r->Ok_0.base == dir && r->Ok_0.segments@.len() == 0,
            None => r == Err::<Located<P>, ConfigError>(ConfigError::NoDataDir),
        }
    }
}

/// An empty override is no override: it never means the current directory. One that is not empty is
/// taken whatever the platform has; there is no data directory exactly where there is neither.
pub proof fn law_an_empty_override_is_none<P>(
    value: P,
    data_dir: Option<P>,
    other_dir: Option<P>,
    r: Result<Located<P>, ConfigError>,
)
    ensures
        is_data_place(Some(EnvValue { value, is_empty: true }), data_dir, r) <==> is_data_place(
            None,
            data_dir,
            r,
        ),
        is_data_place(Some(EnvValue { value, is_empty: false }), data_dir, r) ==> is_data_place(
            Some(EnvValue { value, is_empty: false }),
            other_dir,
            r,
        ) && r is Ok && r->Ok_0.base == value,
        is_data_place(None, data_dir, r) ==> (r is Err <==> data_dir is None) && (data_dir is Some
            ==> r->Ok_0.base == data_dir->0),
        is_data_place(None, data_dir, r) && r is Ok ==> r->Ok_0.segments@.len() == 0,
{
}

/// The configuration file: the override as it stands, or `config.toml` in the platform's
/// configuration directory.
pub fn config_file_path_from<P>(override_value: Option<P>, config_dir: Option<P>) -> (r: Result<
    Located<P>,
    ConfigError,
>)
    ensures
        is_config_place(override_value, config_dir, r),
{
    if let Some(path) = override_value {
        return Ok(Located::at(path));
    }
    match config_dir {
        Some(dir) => {
            let l = Located::at(dir).join(CONFIG_FILE_NAME.to_owned());
            proof {
                assert(text::views(l.segments@) =~= seq![CONFIG_FILE_NAME@]);
            }
            Ok(l)
        },
        None => Err(ConfigError::NoConfigDir),
    }
}

/// The configuration file, and whether the user named it, given the directories of the platform.
pub fn resolve_config_path_in(override_value: Option<PathBuf>, dirs: Option<PlatformDirs>) -> (r:
    Result<(Located<PathBuf>, bool), ConfigError>)
    ensures
        match (override_value, dirs) {
            (Some(path), _) => r is Ok && r->Ok_0.0.base == path && r->Ok_0.0.segments@.len() == 0
                && r->Ok_0.1,
            (None, Some(d)) => r is Ok && r->Ok_0.0.base == d.config_dir && text::views(
                r->Ok_0.0.segments@,
            ) == seq![CONFIG_FILE_NAME@] && !r->Ok_0.1,
            (None, None) => r == Err::<(Located<PathBuf>, bool), ConfigError>(
                ConfigError::NoConfigDir,
            ),
        },
{
    let explicit: bool = override_value.is_some();
    match config_file_path_from(override_value, config_dir_of(dirs)) {
        Ok(path) => Ok((path, explicit)),
        Err(e) => Err(e),
    }
}

/// The configuration file, and whether the user named it: only then is a missing file an error.
pub fn resolve_config_path(override_value: Option<PathBuf>) -> (r: Result<
    (Located<PathBuf>, bool),
    ConfigError,
>)
    ensures
        override_value matches Some(path) ==> r is Ok && r->Ok_0.0.base == path
            && r->Ok_0.0.segments@.len() == 0 && r->Ok_0.1,
        override_value is None ==> match r {
            Ok((path, explicit)) => text::views(path.segments@) == seq![CONFIG_FILE_NAME@]
                && !explicit,
            Err(e) => e == ConfigError::NoConfigDir,
        },
{
    resolve_config_path_in(override_value, platform_dirs("", "", APPLICATION))
}

/// The configuration file.
pub fn config_file_path(override_value: Option<PathBuf>) -> (r: Result<
    Located<PathBuf>,
    ConfigError,
>)
    ensures
        override_value matches Some(path) ==> r is Ok && r->Ok_0.base == path
            && r->Ok_0.segments@.len() == 0,
        override_value is None ==> match r {
            Ok(path) => text::views(path.segments@) == seq![CONFIG_FILE_NAME@],
            Err(e) => e == ConfigError::NoConfigDir,
        },
{
    match resolve_config_path(override_value) {
        Ok((path, _)) => Ok(path),
        Err(e) => Err(e),
    }
}

/// The data directory: the override unless it is empty, or else the platform's. An empty override
/// would mean the current directory, which nobody asked for.
pub fn data_dir_from<P>(override_value: Option<EnvValue<P>>, data_dir: Option<P>) -> (r: Result<
    Located<P>,
    ConfigError,
>)
    ensures
        is_data_place(override_value, data_dir, r),
{
    if let Some(env) = override_value {
        if !env.is_empty {
            return Ok(Located::at(env.value));
        }
    }
    match data_dir {
        Some(dir) => Ok(Located::at(dir)),
        None => Err(ConfigError::NoDataDir),
    }
}

/// The data directory, given the directories of the platform.
pub fn data_dir_in(override_value: Option<EnvValue<PathBuf>>, dirs: Option<PlatformDirs>) -> (r:
    Result<Located<PathBuf>, ConfigError>)
    ensures
        if override_value is Some && !override_value->0.is_empty {
            r is Ok && r->Ok_0.base == override_value->0.value && r->Ok_0.segments@.len() == 0
        } else {
            match dirs {
                Some(d) => r is Ok && r->Ok_0.base == d.data_dir && r->Ok_0.segments@.len() == 0,
                None => r == Err::<Located<PathBuf>, ConfigError>(ConfigError::NoDataDir),
            }
        },
{
    data_dir_from(override_value, data_dir_of(dirs))
}

/// The data directory.
pub fn data_dir(override_value: Option<EnvValue<PathBuf>>) -> (r: Result<
    Located<PathBuf>,
    ConfigError,
>)
    ensures
        override_value is Some && !override_value->0.is_empty ==> r is Ok && r->Ok_0.base
            == override_value->0.value,
        match r {
            Ok(path) => path.segments@.len() == 0,
            Err(e) => e == ConfigError::NoDataDir,
        },
{
    data_dir_in(override_value, platform_dirs("", "", APPLICATION))
}

/// The directory of all saved pages, in the data directory.
pub fn pages_root<P>(data_dir: Located<P>) -> (l: Located<P>)
    ensures
        l.base == data_dir.base,
        text::views(l.segments@) == text::views(data_dir.segments@).push("pages"@),
{
    data_dir.join("pages".to_owned())
}

/// The directory of a connection's saved pages, in the data directory.
pub fn pages_dir_for<P>(data_dir: Located<P>, connection_name: &str) -> (l: Located<P>)
    ensures
        l.base == data_dir.base,
        text::views(l.segments@) == text::views(data_dir.segments@).push("pages"@).push(
            sanitized(connection_name@),
        ),
{
    pages_root(data_dir).join(sanitize_connection_name(connection_name))
}

/// The directory of what is remembered between sessions, in the data directory.
pub fn state_dir<P>(data_dir: Located<P>) -> (l: Located<P>)
    ensures
        l.base == data_dir.base,
        text::views(l.segments@) == text::views(data_dir.segments@).push("state"@),
{
    data_dir.join("state".to_owned())
}

/// A character of a directory name: small letters, digits and `_` stay, capital letters become
/// small, everything else becomes `_`.
pub open spec fn stem_char(c: char) -> char {
    if ('a' <= c <= 'z') || ('0' <= c <= '9') || c == '_' {
        c
    } else if 'A' <= c <= 'Z' {
        ((c as u32) + 32) as char
    } else {
        '_'
    }
}

/// The readable part of a directory name: at most `SANITIZED_STEM_MAX` characters, `conn` for an
/// empty name.
pub open spec fn stem(name: Seq<char>) -> Seq<char> {
    let kept = if name.len() <= SANITIZED_STEM_MAX {
        name
    } else {
        name.take(SANITIZED_STEM_MAX as int)
    };
    if name.len() == 0 {
        "conn"@
    } else {
        kept.map_values(|c: char| stem_char(c))
    }
}

/// The FNV-1a hash of a byte sequence.
pub open spec fn fnv1a(bytes: Seq<u8>) -> u64
    decreases bytes.len(),
{
    if bytes.len() == 0 {
        0xcbf2_9ce4_8422_2325
    } else {
        (fnv1a(bytes.drop_last()) ^ (bytes.last() as u64)).wrapping_mul(0x0000_0100_0000_01b3)
    }
}

/// A hexadecimal digit.
pub open spec fn hex_char(d: u64) -> char {
    if d < 10 {
        (('0' as u32) + d) as char
    } else {
        (('a' as u32) + (d - 10)) as char
    }
}

/// The `i`-th hexadecimal digit of a number that is written with sixteen.
pub open spec fn hex_digit(h: u64, i: int) -> char {
    hex_char((h >> ((60 - 4 * i) as u64)) & 0xf)
}

/// The first twelve of the sixteen hexadecimal digits of a hash.
pub open spec fn hash_digits(h: u64) -> Seq<char> {
    Seq::new(12, |i: int| hex_digit(h, i))
}

/// The directory name for a connection: the readable part, and digits of a hash of the whole
/// name that keep names apart whose readable parts are equal.
pub open spec fn sanitized(name: Seq<char>) -> Seq<char> {
    stem(name) + seq!['-'] + hash_digits(fnv1a(vstd::utf8::encode_utf8(name)))
}

fn lower_stem_char(c: char) -> (r: char)
    ensures
        r == stem_char(c),
{
    if ('a' <= c && c <= 'z') || ('0' <= c && c <= '9') || c == '_' {
        c
    } else if 'A' <= c && c <= 'Z' {
        ((c as u8) + 32) as char
    } else {
        '_'
    }
}

fn hex_char_of(d: u64) -> (c: char)
    requires
        d < 16,
    ensures
        c == hex_char(d),
{
    if d < 10 {
        (48u8 + d as u8) as char
    } else {
        (97u8 + (d - 10) as u8) as char
    }
}

fn fnv1a64(bytes: &[u8]) -> (h: u64)
    ensures
        h == fnv1a(bytes@),
{
    let mut h: u64 = 0xcbf2_9ce4_8422_2325;
    let n: usize = bytes.len();
    let mut i: usize = 0;
    proof {
        assert(bytes@.take(0) =~= Seq::<u8>::empty());
    }
    while i < n
        invariant
            n == bytes@.len(),
            i <= n,
            h == fnv1a(bytes@.take(i as int)),
        decreases n - i,
    {
        proof {
            assert(bytes@.take(i + 1).drop_last() =~= bytes@.take(i as int));
        }
        h = h ^ (bytes[i] as u64);
        h = h.wrapping_mul(0x0000_0100_0000_01b3);
        i = i + 1;
    }
    proof {
        assert(bytes@.take(n as int) =~= bytes@);
    }
    h
}

/// A directory name for a connection, whatever characters its name holds.
pub fn sanitize_connection_name(name: &str) -> (r: String)
    ensures
        r@ == sanitized(name@),
{
    let hash: u64 = fnv1a64(name.as_bytes());
    let mut out: String = String::new();
    let mut count: usize = 0;
    for c in it: name.chars()
        invariant
            it.seq() == name@,
            count == (if it.index() <= SANITIZED_STEM_MAX {
                it.index() as int
            } else {
                SANITIZED_STEM_MAX as int
            }),
            out@.len() == count,
            forall|i: int| 0 <= i < count ==> #[trigger] out@[i] == stem_char(name@[i]),
    {
        if count < SANITIZED_STEM_MAX {
            out.push(lower_stem_char(c));
            count = count + 1;
        }
    }
    if count == 0 {
        out.append("conn");
        proof {
            assert(out@ =~= stem(name@));
        }
    } else {
        proof {
            assert(out@ =~= stem(name@));
        }
    }
    out.push('-');
    let ghost head = out@;
    let mut i: u64 = 0;
    while i < 12
        invariant
            i <= 12,
            out@.len() == head.len() + i,
            forall|j: int| 0 <= j < head.len() ==> #[trigger] out@[j] == head[j],
            forall|j: int|
                0 <= j < i ==> #[trigger] out@[head.len() + j] == hex_digit(hash, j),
        decreases 12 - i,
    {
        let shift: u64 = 60 - 4 * i;
        let ghost before = out@;
        assert((hash >> shift) & 0xf < 16) by (bit_vector);
        out.push(hex_char_of((hash >> shift) & 0xf));
        proof {
            assert forall|j: int| 0 <= j < i + 1 implies #[trigger] out@[head.len() + j]
                == hex_digit(hash, j) by {
                if j < i {
                    assert(before[head.len() + j] == hex_digit(hash, j));
                }
            }
        }
        i = i + 1;
    }
    proof {
        assert(head =~= stem(name@) + seq!['-']);
        let tail = hash_digits(hash);
        assert forall|k: int| 0 <= k < out@.len() implies out@[k] == (head + tail)[k] by {
            if k >= head.len() {
                assert(out@[head.len() + (k - head.len())] == hex_digit(hash, k - head.len()));
            }
        }
        assert(out@ =~= head + tail);
        assert(out@ =~= sanitized(name@));
    }
    out
}

/// A directory name is safe: at most 53 characters, all of them small letters, digits, `_` or
/// `-`; exactly one `-`, which is not the first; the part before it is the readable one.
pub proof fn law_sanitized_is_safe(name: Seq<char>)
    ensures
        ({
            let s = sanitized(name);
            &&& 14 <= s.len() <= 53
            &&& text::byte_len(s) == s.len()
            &&& s[0] != '-'
            &&& s[stem(name).len() as int] == '-'
            &&& forall|i: int|
                0 <= i < s.len() && i != stem(name).len() ==> ('a' <= (#[trigger] s[i]) <= 'z') || (
                '0' <= s[i] <= '9') || s[i] == '_'
        }),
{
    reveal_strlit("conn");
    let s = sanitized(name);
    let h = fnv1a(vstd::utf8::encode_utf8(name));
    let n = stem(name).len();
    assert forall|i: int| 0 <= i < s.len() && i != n implies ('a' <= (#[trigger] s[i]) <= 'z') || (
    '0' <= s[i] <= '9') || s[i] == '_' by {
        if i < n {
            assert(s[i] == stem(name)[i]);
        } else {
            let shift = (60 - 4 * (i - n - 1)) as u64;
            assert(s[i] == hex_digit(h, i - n - 1));
            assert((h >> shift) & 0xf < 16) by (bit_vector);
        }
    }
    assert(vstd::utf8::is_ascii_chars(s)) by {
        assert forall|i: int| 0 <= i < s.len() implies 0 <= (#[trigger] s[i]) as nat && (
        s[i] as nat) < 128 by {
            if i != n {
                assert(('a' <= s[i] <= 'z') || ('0' <= s[i] <= '9') || s[i] == '_');
            }
        }
    }
    vstd::utf8::is_ascii_chars_encode_utf8(s);
}

/// Two connections share a directory name only if their readable parts and the digits of their
/// hashes are equal.
pub proof fn law_same_directory_means_same_hash(a: Seq<char>, b: Seq<char>)
    requires
        sanitized(a) == sanitized(b),
    ensures
        stem(a) == stem(b),
        hash_digits(fnv1a(vstd::utf8::encode_utf8(a))) == hash_digits(fnv1a(vstd::utf8::encode_utf8(b))),
{
    let s = sanitized(a);
    let n = stem(a).len();
    let m = stem(b).len();
    assert(s.len() == n + 13);
    assert(s.len() == m + 13);
    assert(stem(a) =~= s.take(n as int));
    assert(stem(b) =~= s.take(n as int));
    assert(hash_digits(fnv1a(vstd::utf8::encode_utf8(a))) =~= s.skip((n + 1) as int));
    assert(hash_digits(fnv1a(vstd::utf8::encode_utf8(b))) =~= s.skip((n + 1) as int));
}

/// The number that a sequence of small hexadecimal digits stands for.
pub open spec fn hex_number(digits: Seq<char>) -> int
    decreases digits.len(),
{
    if digits.len() == 0 {
        0
    } else {
        16 * hex_number(digits.drop_last()) + (if '0' <= digits.last() <= '9' {
            digits.last() as int - '0' as int
        } else {
            digits.last() as int - 'a' as int + 10
        })
    }
}

/// The digits of a hash are its highest forty-eight bits in hexadecimal notation.
pub proof fn law_hash_digits_are_the_highest_bits(h: u64)
    ensures
        hash_digits(h).len() == 12,
        hex_number(hash_digits(h)) == h / 0x1_0000,
{
    lemma_hex_prefix(h, 12);
    assert(hash_digits(h).take(12) =~= hash_digits(h));
    assert(h >> 16 == h / 0x1_0000) by (bit_vector);
}

proof fn lemma_hex_prefix(h: u64, n: int)
    requires
        1 <= n <= 12,
    ensures
        hex_number(hash_digits(h).take(n)) == h >> ((64 - 4 * n) as u64),
    decreases n,
{
    let digits = hash_digits(h).take(n);
    let shift = (64 - 4 * n) as u64;
    let low = (h >> shift) & 0xf;
    assert(low < 16) by (bit_vector)
        requires
            low == (h >> shift) & 0xf,
    ;
    assert(digits.last() == hex_digit(h, n - 1));
    assert(digits.last() == hex_char(low));
    assert(digits.drop_last() =~= hash_digits(h).take(n - 1));
    if n > 1 {
        lemma_hex_prefix(h, n - 1);
        let above = (64 - 4 * (n - 1)) as u64;
        assert(16 * (h >> above) + ((h >> shift) & 0xf) == h >> shift) by (bit_vector)
            requires
                above == shift + 4,
                shift <= 56,
        ;
    } else {
        assert(hex_number(digits.drop_last()) == 0);
        assert((h >> 60u64) & 0xf == h >> 60u64) by (bit_vector);
    }
}

/// Two connections share a directory name only if the highest forty-eight bits of their hashes are
/// equal.
pub proof fn law_directories_differ_with_the_hash(a: Seq<char>, b: Seq<char>)
    requires
        sanitized(a) == sanitized(b),
    ensures
        fnv1a(vstd::utf8::encode_utf8(a)) / 0x1_0000 == fnv1a(vstd::utf8::encode_utf8(b)) / 0x1_0000,
{
    law_same_directory_means_same_hash(a, b);
    law_hash_digits_are_the_highest_bits(fnv1a(vstd::utf8::encode_utf8(a)));
    law_hash_digits_are_the_highest_bits(fnv1a(vstd::utf8::encode_utf8(b)));
}

/// The readable part of a directory name follows the connection's name: its first forty characters,
/// in lower case, with `_` for whatever is not a letter of the Latin alphabet, a digit or `_`.
/// Whether letters are capital makes no difference to it.
pub proof fn law_readable_part_follows_the_name(name: Seq<char>)
    ensures
        name.len() > 0 ==> stem(name).len() == (if name.len() < 40 {
            name.len() as int
        } else {
            40
        }),
        name.len() == 0 ==> stem(name) == "conn"@,
        forall|i: int|
            0 <= i < stem(name).len() && name.len() > 0 ==> {
                let small = text::ascii_lower(name[i]);
                #[trigger] stem(name)[i] == if ('a' <= small <= 'z') || ('0' <= small <= '9') || small
                    == '_' {
                    small
                } else {
                    '_'
                }
            },
        name.len() > 0 ==> stem(text::ascii_lowered(name)) == stem(name),
{
    if name.len() > 0 {
        assert(stem(text::ascii_lowered(name)) =~= stem(name));
    }
}

/// The hash starts from its basis and takes up one byte after the other: each is combined with what was
/// there bit by bit, and the whole multiplied, within sixty-four bits.
pub proof fn law_hash_takes_up_one_byte_after_the_other(bytes: Seq<u8>, b: u8)
    ensures
        fnv1a(Seq::empty()) == 0xcbf2_9ce4_8422_2325,
        fnv1a(bytes.push(b)) as int == ((fnv1a(bytes) ^ (b as u64)) * 0x100_0000_01b3)
            % 0x1_0000_0000_0000_0000,
{
    assert(bytes.push(b).drop_last() =~= bytes);
}

/// Every byte of a name counts: two names of one length that differ in a single byte have different
/// hashes.
pub proof fn law_every_byte_counts(a: Seq<u8>, b: Seq<u8>, i: int)
    requires
        a.len() == b.len(),
        0 <= i < a.len(),
        a[i] != b[i],
        forall|j: int| 0 <= j < a.len() && j != i ==> #[trigger] a[j] == b[j],
    ensures
        fnv1a(a) != fnv1a(b),
    decreases a.len(),
{
    let (x, y) = (a.drop_last(), b.drop_last());
    let (g, h) = (fnv1a(x), fnv1a(y));
    let (c, d) = (a.last() as u64, b.last() as u64);
    assert(a =~= x.push(a.last()));
    assert(b =~= y.push(b.last()));
    law_hash_takes_up_one_byte_after_the_other(x, a.last());
    law_hash_takes_up_one_byte_after_the_other(y, b.last());
    if i == a.len() - 1 {
        assert(x =~= y);
        assert(g ^ c != g ^ d) by (bit_vector)
            requires
                c != d,
        ;
    } else {
        assert(a[a.len() - 1] == b[a.len() - 1]);
        law_every_byte_counts(x, y, i);
        assert(g ^ c != h ^ c) by (bit_vector)
            requires
                g != h,
        ;
    }
    if fnv1a(a) == fnv1a(b) {
        lemma_multiplied_differ((g ^ c) as int, (h ^ d) as int);
    }
}

/// Multiplying by the odd factor of the hash within sixty-four bits keeps numbers apart.
proof fn lemma_multiplied_differ(a: int, b: int)
    requires
        0 <= a < 0x1_0000_0000_0000_0000,
        0 <= b < 0x1_0000_0000_0000_0000,
        (a * 0x100_0000_01b3) % 0x1_0000_0000_0000_0000 == (b * 0x100_0000_01b3)
            % 0x1_0000_0000_0000_0000,
    ensures
        a == b,
{
    let m = 0x1_0000_0000_0000_0000int;
    let p = 0x100_0000_01b3int;
    let q = 0xce96_5057_aff6_957bint;
    let k = 887285111055int;
    assert(p * q == k * m + 1);
    let d = a - b;
    let z = (a * p) / m - (b * p) / m;
    assert(d * p == z * m) by (nonlinear_arith)
        requires
            d == a - b,
            z == (a * p) / m - (b * p) / m,
            (a * p) % m == (b * p) % m,
            m > 0,
    ;
    assert(d * (p * q) == (z * q) * m) by (nonlinear_arith)
        requires
            d * p == z * m,
    ;
    let w = z * q - d * k;
    assert(d == w * m) by (nonlinear_arith)
        requires
            d * (p * q) == (z * q) * m,
            p * q == k * m + 1,
            w == z * q - d * k,
    ;
    assert(w == 0) by (nonlinear_arith)
        requires
            d == w * m,
            -m < d < m,
            m > 0,
    ;
}

} // verus!
