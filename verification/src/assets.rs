use vstd::prelude::*;
use vstd::string::StringExecFns;
use crate::stratagems::{ascii_lower, to_ascii_lower};
use crate::text::{
    chars_of, has_prefix, is_blank, is_blank_str, is_white_space, leading_count, string_of, strip_ends,
    trailing_count, trim_str, trimmed,
};
use crate::toml_tree::str_eq;

verus! {

/// How a downloaded asset is stored.
#[derive(Clone, Copy, Debug, PartialEq, Eq, Structural)]
pub enum AssetType {
    ZipArchive,
    SevenZipArchive,
    TarBz2Archive,
    RawFile,
}

/// The file extension of an archive type.
pub open spec fn extension_of(t: AssetType) -> Option<Seq<char>> {
    match t {
        AssetType::ZipArchive => Some("zip"@),
        AssetType::SevenZipArchive => Some("7z"@),
        AssetType::TarBz2Archive => Some("tar.bz2"@),
        AssetType::RawFile => None,
    }
}

/// The file extension of an archive type; none for a raw file.
pub fn archive_extension(asset_type: AssetType) -> (r: Option<&'static str>)
    ensures
        match r {
            Some(e) => extension_of(asset_type) == Some(e@),
            None => extension_of(asset_type) is None,
        },
{
    match asset_type {
        AssetType::ZipArchive => Some("zip"),
        AssetType::SevenZipArchive => Some("7z"),
        AssetType::TarBz2Archive => Some("tar.bz2"),
        AssetType::RawFile => None,
    }
}

/// Whether an asset is downloaded as an archive and extracted.
pub fn is_archive_asset(asset_type: AssetType) -> (r: bool)
    ensures
        r == !(asset_type is RawFile),
{
    match asset_type {
        AssetType::ZipArchive | AssetType::SevenZipArchive | AssetType::TarBz2Archive => true,
        AssetType::RawFile => false,
    }
}

/// The file name an archive is downloaded to, beside the target.
pub fn archive_file_name(asset_id: &str, extension: &str) -> (r: String)
    ensures
        r@ == asset_id@ + "."@ + extension@,
{
    String::from_str(asset_id).concat(".").concat(extension)
}

/// The message for an archive target without a parent directory.
pub fn archive_parent_missing_message(asset_id: &str) -> (r: String)
    ensures
        r@ == "Archive target path for '"@ + asset_id@ + "' must have a parent directory."@,
{
    String::from_str("Archive target path for '").concat(asset_id).concat(
        "' must have a parent directory.",
    )
}

/// The message for an archive that was extracted without creating the
/// expected folder.
pub fn extracted_folder_missing_message(asset_id: &str) -> (r: String)
    ensures
        r@ == "Asset '"@ + asset_id@ + "' was extracted, but the expected folder was not created."@,
{
    String::from_str("Asset '").concat(asset_id).concat(
        "' was extracted, but the expected folder was not created.",
    )
}

/// The message for an extraction target without a parent directory.
pub fn extract_root_missing_message(asset_type: AssetType) -> (r: &'static str)
    ensures
        r@ == match asset_type {
            AssetType::ZipArchive => "Zip archive target path must have a parent directory."@,
            AssetType::SevenZipArchive => "7z archive target path must have a parent directory."@,
            AssetType::TarBz2Archive => "tar.bz2 archive target path must have a parent directory."@,
            AssetType::RawFile => "Raw file target path must have a parent directory."@,
        },
{
    match asset_type {
        AssetType::ZipArchive => "Zip archive target path must have a parent directory.",
        AssetType::SevenZipArchive => "7z archive target path must have a parent directory.",
        AssetType::TarBz2Archive => "tar.bz2 archive target path must have a parent directory.",
        AssetType::RawFile => "Raw file target path must have a parent directory.",
    }
}

/// What a failed download leaves to remove besides the partial download.
#[derive(Clone, Copy, Debug, PartialEq, Eq, Structural)]
pub enum FailureCleanup {
    /// Nothing: the target was there before.
    KeepTarget,
    /// The target directory that extraction may have begun.
    RemoveTargetDir,
    /// The target file that the download may have begun.
    RemoveTargetFile,
}

/// What to remove after a failed download: a target that did not exist
/// before, as a directory for archives and as a file for raw files.
pub fn failure_cleanup(asset_type: AssetType, target_existed: bool) -> (r: FailureCleanup)
    ensures
        r == if target_existed {
            FailureCleanup::KeepTarget
        } else if asset_type is RawFile {
            FailureCleanup::RemoveTargetFile
        } else {
            FailureCleanup::RemoveTargetDir
        },
{
    if target_existed {
        return FailureCleanup::KeepTarget;
    }
    match asset_type {
        AssetType::RawFile => FailureCleanup::RemoveTargetFile,
        _ => FailureCleanup::RemoveTargetDir,
    }
}

/// The prefix of Hugging Face download addresses.
pub open spec fn hugging_face_prefix() -> Seq<char> {
    "https://huggingface.co/"@
}

/// The mirror of a Hugging Face address: the same path on the mirror host.
pub open spec fn mirror_of(url: Seq<char>) -> Option<Seq<char>> {
    if has_prefix(url, hugging_face_prefix()) {
        Some("https://hf-mirror.com/"@ + url.skip(hugging_face_prefix().len() as int))
    } else {
        None
    }
}

/// The mirror of a Hugging Face address, or nothing for another address.
pub fn to_huggingface_mirror_url(url: &str) -> (r: Option<String>)
    ensures
        match r {
            Some(m) => mirror_of(url@) == Some(m@),
            None => mirror_of(url@) is None,
        },
{
    if !crate::text::str_starts_with(url, "https://huggingface.co/") {
        return None;
    }
    proof {
        reveal_strlit("https://huggingface.co/");
    }
    let chars = chars_of(url);
    let n = chars.len();
    let suffix = crate::text::slice_chars(&chars, 23, n);
    assert(suffix@ == url@.skip(23));
    Some(String::from_str("https://hf-mirror.com/").concat(string_of(&suffix).as_str()))
}

/// Whether an address is the official one or its mirror, ignoring
/// surrounding white space.
pub open spec fn recognized_url(candidate: Seq<char>, official: Seq<char>) -> bool {
    trimmed(candidate) == official || mirror_of(official) == Some(trimmed(candidate))
}

/// A text without white space at either end is its own trimmed text.
proof fn lemma_trimmed_unchanged(s: Seq<char>)
    requires
        s.len() > 0,
        !is_white_space(s[0]),
        !is_white_space(s.last()),
    ensures
        trimmed(s) == s,
{
    let p = |c: char| is_white_space(c);
    assert(leading_count(s, p) == 0);
    assert(s.skip(0) == s);
    assert(trailing_count(s, p) == 0);
    assert(s.take(s.len() as int) == s);
}

/// The official address, written without white space around it, is a
/// recognized download address, and so is its mirror.
pub proof fn lemma_official_and_mirror_recognized(official: Seq<char>)
    requires
        official.len() > 0,
        !is_white_space(official[0]),
        !is_white_space(official.last()),
    ensures
        recognized_url(official, official),
        mirror_of(official) matches Some(m) ==> recognized_url(m, official),
{
    lemma_trimmed_unchanged(official);
    if let Some(m) = mirror_of(official) {
        reveal_strlit("https://hf-mirror.com/");
        reveal_strlit("https://huggingface.co/");
        let rest = official.skip(23);
        assert(m == "https://hf-mirror.com/"@ + rest);
        assert(m[0] == 'h');
        if rest.len() > 0 {
            assert(m.last() == official.last());
        } else {
            assert(m.last() == '/');
        }
        lemma_trimmed_unchanged(m);
    }
}

/// Whether a requested download address is the official one or its mirror.
pub fn is_recognized_download_url(candidate_url: &str, official_url: &str) -> (r: bool)
    ensures
        r == recognized_url(candidate_url@, official_url@),
{
    let t = trim_str(candidate_url);
    if str_eq(t.as_str(), official_url) {
        return true;
    }
    match to_huggingface_mirror_url(official_url) {
        Some(m) => str_eq(m.as_str(), t.as_str()),
        None => false,
    }
}

/// The address to download from: the mirror of a Hugging Face address when
/// the mirror is wanted, else the address itself.
pub open spec fn download_url_for(url: Seq<char>, mirror_wanted: bool) -> Seq<char> {
    if mirror_wanted && has_prefix(url, hugging_face_prefix()) {
        mirror_of(url)->0
    } else {
        url
    }
}

/// The address to download from.
pub fn resolve_download_url(url: &str, mirror_wanted: bool) -> (r: String)
    ensures
        r@ == download_url_for(url@, mirror_wanted),
{
    if mirror_wanted {
        match to_huggingface_mirror_url(url) {
            Some(m) => {
                return m;
            },
            None => {},
        }
    }
    String::from_str(url)
}

/// Whether the mirror question matters for an address: only Hugging Face
/// downloads may go through the mirror.
pub fn may_use_hf_mirror(url: &str) -> (r: bool)
    ensures
        r == has_prefix(url@, hugging_face_prefix()),
{
    crate::text::str_starts_with(url, "https://huggingface.co/")
}


/// A line without the carriage return of a `\r\n` ending.
pub open spec fn strip_cr(line: Seq<char>) -> Seq<char> {
    if line.len() > 0 && line.last() == '\r' {
        line.drop_last()
    } else {
        line
    }
}

/// Reads a text into the lines ended so far and the line in progress.
pub open spec fn scan_lines(s: Seq<char>) -> (Seq<Seq<char>>, Seq<char>)
    decreases s.len(),
{
    if s.len() == 0 {
        (Seq::empty(), Seq::empty())
    } else {
        let (done, cur) = scan_lines(s.drop_last());
        if s.last() == '\n' {
            (done.push(strip_cr(cur)), Seq::empty())
        } else {
            (done, cur.push(s.last()))
        }
    }
}

/// The lines of a text as `str::lines` yields them: split at `\n`, an
/// ending `\r\n` counting as one line end, no empty line after a final
/// line end.
pub open spec fn lines_of(s: Seq<char>) -> Seq<Seq<char>> {
    let (done, cur) = scan_lines(s);
    if cur.len() > 0 {
        done.push(cur)
    } else {
        done
    }
}

/// The position of the first `c` in `s`.
pub open spec fn first_index_of(s: Seq<char>, c: char) -> Option<nat>
    decreases s.len(),
{
    if s.len() == 0 {
        None
    } else if s[0] == c {
        Some(0)
    } else {
        match first_index_of(s.drop_first(), c) {
            Some(i) => Some(i + 1),
            None => None,
        }
    }
}

/// What a line of the network trace says about the location: for a `loc`
/// entry, whether it is `CN` (in any ASCII case).
pub open spec fn location_verdict(line: Seq<char>) -> Option<bool> {
    match first_index_of(line, '=') {
        Some(i) => if line.take(i as int) == "loc"@ {
            Some(ascii_lower(line.skip(i as int + 1)) == "cn"@)
        } else {
            None
        },
        None => None,
    }
}

/// The verdict of the first line that has one.
pub open spec fn first_location_verdict(lines: Seq<Seq<char>>) -> Option<bool>
    decreases lines.len(),
{
    if lines.len() == 0 {
        None
    } else {
        match location_verdict(lines[0]) {
            Some(b) => Some(b),
            None => first_location_verdict(lines.drop_first()),
        }
    }
}

/// Whether a network trace places the machine in mainland China; a trace
/// without a location says no.
pub open spec fn trace_in_mainland_china(body: Seq<char>) -> bool {
    match first_location_verdict(lines_of(body)) {
        Some(b) => b,
        None => false,
    }
}

fn line_verdict(line: &Vec<char>) -> (r: Option<bool>)
    ensures
        r == location_verdict(line@),
{
    let n = line.len();
    let mut i: usize = 0;
    assert(line@.skip(0) == line@);
    while i < n
        invariant
            n == line@.len(),
            i <= n,
            first_index_of(line@, '=') == match first_index_of(line@.skip(i as int), '=') {
                Some(j) => Some((j + i) as nat),
                None => None,
            },
        decreases n - i,
    {
        assert(line@.skip(i as int)[0] == line@[i as int]);
        assert(line@.skip(i as int).drop_first() == line@.skip(i as int + 1));
        if line[i] == '=' {
            assert(first_index_of(line@.skip(i as int), '=') == Some(0nat));
            assert(first_index_of(line@, '=') == Some(i as nat));
            let key = crate::text::slice_chars(line, 0, i);
            let value = crate::text::slice_chars(line, i + 1, n);
            assert(key@ == line@.take(i as int));
            assert(value@ == line@.skip(i + 1));
            let key_text = string_of(&key);
            if !str_eq(key_text.as_str(), "loc") {
                return None;
            }
            let lowered = to_ascii_lower(string_of(&value).as_str());
            return Some(str_eq(lowered.as_str(), "cn"));
        }
        i += 1;
    }
    assert(line@.skip(n as int).len() == 0);
    None
}

/// The lines of a text, as `str::lines` yields them.
pub fn split_lines(chars: &Vec<char>) -> (r: Vec<Vec<char>>)
    ensures
        r.deep_view() == lines_of(chars@),
{
    let mut lines: Vec<Vec<char>> = Vec::new();
    let mut cur: Vec<char> = Vec::new();
    let n = chars.len();
    let mut i: usize = 0;
    while i < n
        invariant
            n == chars@.len(),
            i <= n,
            (lines.deep_view(), cur@) == scan_lines(chars@.take(i as int)),
        decreases n - i,
    {
        assert(chars@.take(i as int + 1).drop_last() == chars@.take(i as int));
        let c = chars[i];
        if c == '\n' {
            let mut line = cur;
            if line.len() > 0 && line[line.len() - 1] == '\r' {
                line.pop();
            }
            crate::text::push_word(&mut lines, line);
            cur = Vec::new();
        } else {
            cur.push(c);
        }
        i += 1;
    }
    assert(chars@.take(n as int) == chars@);
    if cur.len() > 0 {
        crate::text::push_word(&mut lines, cur);
    }
    lines
}

/// Whether a network trace places the machine in mainland China.
pub fn trace_says_mainland_china(body: &str) -> (r: bool)
    ensures
        r == trace_in_mainland_china(body@),
{
    let chars = chars_of(body);
    let lines = split_lines(&chars);
    let ghost all = lines.deep_view();
    assert(all == lines_of(body@));
    let m = lines.len();
    let mut j: usize = 0;
    assert(all.skip(0) == all);
    while j < m
        invariant
            m == lines@.len(),
            all == lines.deep_view(),
            all == lines_of(body@),
            j <= m,
            first_location_verdict(all) == first_location_verdict(all.skip(j as int)),
        decreases m - j,
    {
        assert(all.skip(j as int)[0] == lines@[j as int]@);
        assert(all.skip(j as int).drop_first() == all.skip(j as int + 1));
        match line_verdict(&lines[j]) {
            Some(b) => {
                assert(all.skip(j as int).len() > 0);
                assert(first_location_verdict(all.skip(j as int)) == Some(b));
                return b;
            },
            None => {},
        }
        j += 1;
    }
    false
}


/// The download progress in percent: the downloaded bytes times a hundred
/// (saturating), divided by the total, at most a hundred.
pub open spec fn progress_of(downloaded: u64, total: u64) -> u8 {
    let scaled: int = if downloaded * 100 > u64::MAX {
        u64::MAX as int
    } else {
        downloaded * 100
    };
    if scaled / (total as int) > 100 {
        100
    } else {
        (scaled / (total as int)) as u8
    }
}

/// The percentage of a download never goes down as bytes arrive: more
/// bytes of the same total give at least the same percentage.
pub proof fn lemma_progress_monotone(before: u64, after: u64, total: u64)
    requires
        before <= after,
        total > 0,
    ensures
        progress_of(before, total) <= progress_of(after, total),
{
    let s1: int = if before * 100 > u64::MAX {
        u64::MAX as int
    } else {
        before * 100
    };
    let s2: int = if after * 100 > u64::MAX {
        u64::MAX as int
    } else {
        after * 100
    };
    assert(s1 <= s2);
    vstd::arithmetic::div_mod::lemma_div_is_ordered(s1, s2, total as int);
}

/// The progress of a download: the bytes so far and the last percentage
/// reported.
#[derive(Clone, Copy, Debug)]
pub struct DownloadProgress {
    pub downloaded: u64,
    pub last_progress: u8,
}

impl DownloadProgress {
    /// Nothing downloaded, nothing reported.
    pub fn new() -> (r: Self)
        ensures
            r.downloaded == 0,
            r.last_progress == 0,
    {
        DownloadProgress { downloaded: 0, last_progress: 0 }
    }

    /// Counts a received chunk; returns the new percentage when the total
    /// size is known and positive and the percentage changed.
    pub fn record(&mut self, chunk_len: u64, total: Option<u64>) -> (r: Option<u8>)
        requires
            old(self).downloaded + chunk_len <= u64::MAX,
        ensures
            final(self).downloaded == old(self).downloaded + chunk_len,
            match total {
                Some(t) if t > 0 => {
                    let p = progress_of(final(self).downloaded, t);
                    if p != old(self).last_progress {
                        r == Some(p) && final(self).last_progress == p
                    } else {
                        r is None && final(self).last_progress == old(self).last_progress
                    }
                },
                _ => r is None && final(self).last_progress == old(self).last_progress,
            },
            r matches Some(p) ==> p <= 100,
    {
        self.downloaded = self.downloaded + chunk_len;
        match total {
            Some(t) => {
                if t == 0 {
                    return None;
                }
                let scaled = if self.downloaded > u64::MAX / 100 {
                    u64::MAX
                } else {
                    self.downloaded * 100
                };
                let q = scaled / t;
                let p: u8 = if q > 100 {
                    100
                } else {
                    q as u8
                };
                if p != self.last_progress {
                    self.last_progress = p;
                    Some(p)
                } else {
                    None
                }
            },
            None => None,
        }
    }
}

/// A component of an archive entry's path, as `Path::components` yields it.
#[derive(Debug)]
pub enum PathPart {
    Normal(String),
    CurDir,
    ParentDir,
    RootDir,
    Prefix,
}

/// Why an archive entry is refused.
#[derive(Clone, Copy, Debug, PartialEq, Eq, Structural)]
pub enum ArchivePathError {
    /// The path climbs out of the extraction directory or is absolute.
    Invalid,
    /// The path names nothing.
    Empty,
}

/// The names of a relative path, `.` dropped; nothing when a component
/// leaves the extraction directory (a parent, the root or a prefix).
pub open spec fn relative_names(parts: Seq<PathPart>) -> Option<Seq<Seq<char>>>
    decreases parts.len(),
{
    if parts.len() == 0 {
        Some(Seq::empty())
    } else {
        match relative_names(parts.drop_last()) {
            None => None,
            Some(names) => match parts.last() {
                PathPart::Normal(n) => Some(names.push(n@)),
                PathPart::CurDir => Some(names),
                _ => None,
            },
        }
    }
}

/// The names an archive entry is extracted under.
pub open spec fn archive_entry_names(parts: Seq<PathPart>) -> Result<Seq<Seq<char>>, ArchivePathError> {
    match relative_names(parts) {
        None => Err(ArchivePathError::Invalid),
        Some(names) => if names.len() == 0 {
            Err(ArchivePathError::Empty)
        } else {
            Ok(names)
        },
    }
}

/// The names an archive entry is extracted under, or why it is refused.
pub fn normalize_archive_relative_path(parts: &Vec<PathPart>) -> (r: Result<
    Vec<String>,
    ArchivePathError,
>)
    ensures
        match r {
            Ok(v) => archive_entry_names(parts@) == Ok::<Seq<Seq<char>>, ArchivePathError>(
                v@.map_values(|s: String| s@),
            ),
            Err(e) => archive_entry_names(parts@) == Err::<Seq<Seq<char>>, ArchivePathError>(e),
        },
{
    let mut names: Vec<String> = Vec::new();
    let n = parts.len();
    let mut i: usize = 0;
    while i < n
        invariant
            n == parts@.len(),
            i <= n,
            relative_names(parts@.take(i as int)) == Some(names@.map_values(|s: String| s@)),
        decreases n - i,
    {
        assert(parts@.take(i as int + 1).drop_last() == parts@.take(i as int));
        assert(parts@.take(i as int + 1).last() == parts@[i as int]);
        match &parts[i] {
            PathPart::Normal(name) => {
                let ghost before = names@;
                names.push(name.clone());
                assert(names@.map_values(|s: String| s@) =~= before.map_values(|s: String| s@).push(
                    name@,
                ));
            },
            PathPart::CurDir => {},
            _ => {
                proof {
                    lemma_relative_names_stays_none(parts@, i as int + 1);
                }
                return Err(ArchivePathError::Invalid);
            },
        }
        i += 1;
    }
    assert(parts@.take(n as int) == parts@);
    if names.len() == 0 {
        return Err(ArchivePathError::Empty);
    }
    Ok(names)
}

proof fn lemma_relative_names_stays_none(parts: Seq<PathPart>, k: int)
    requires
        0 <= k <= parts.len(),
        relative_names(parts.take(k)) is None,
    ensures
        relative_names(parts) is None,
    decreases parts.len() - k,
{
    if k < parts.len() {
        assert(parts.take(k + 1).drop_last() == parts.take(k));
        lemma_relative_names_stays_none(parts, k + 1);
    } else {
        assert(parts.take(k) == parts);
    }
}

/// The message for a refused archive entry.
pub fn archive_path_error_message(e: ArchivePathError, displayed_path: &str) -> (r: String)
    ensures
        r@ == match e {
            ArchivePathError::Invalid => "Refusing to extract archive entry with invalid path '"@
                + displayed_path@ + "'."@,
            ArchivePathError::Empty => "Refusing to extract archive entry with an empty path."@,
        },
{
    match e {
        ArchivePathError::Invalid => String::from_str(
            "Refusing to extract archive entry with invalid path '",
        ).concat(displayed_path).concat("'."),
        ArchivePathError::Empty => String::from_str(
            "Refusing to extract archive entry with an empty path.",
        ),
    }
}


/// A downloadable model of an official list.
#[derive(Clone, Copy, Debug)]
pub struct ModelDefinition {
    pub id: &'static str,
    pub url: &'static str,
}

/// The id and address of each model of a list.
pub open spec fn definitions_view(defs: Seq<ModelDefinition>) -> Seq<(Seq<char>, Seq<char>)> {
    defs.map_values(|d: ModelDefinition| (d.id@, d.url@))
}

/// The official Vosk models.
pub open spec fn vosk_catalog() -> Seq<(Seq<char>, Seq<char>)> {
    seq![
        ("vosk-model-small-ar-tn-0.1-linto"@, "https://huggingface.co/Derur/vosk-models/resolve/main/stt/ar-tn/vosk-model-small-ar-tn-0.1-linto.7z"@),
        ("vosk-model-small-ca-0.4"@, "https://huggingface.co/Derur/vosk-models/resolve/main/stt/ca/vosk-model-small-ca-0.4.7z"@),
        ("vosk-model-small-cn-0.22"@, "https://huggingface.co/Derur/vosk-models/resolve/main/stt/cn/vosk-model-small-cn-0.22.7z"@),
        ("vosk-model-small-cs-0.4-rhasspy"@, "https://huggingface.co/Derur/vosk-models/resolve/main/stt/cs/vosk-model-small-cs-0.4-rhasspy.7z"@),
        ("vosk-model-small-de-0.15"@, "https://huggingface.co/Derur/vosk-models/resolve/main/stt/de/vosk-model-small-de-0.15.7z"@),
        ("vosk-model-small-de-zamia-0.3"@, "https://huggingface.co/Derur/vosk-models/resolve/main/stt/de/vosk-model-small-de-zamia-0.3.7z"@),
        ("vosk-model-small-en-in-0.4"@, "https://huggingface.co/Derur/vosk-models/resolve/main/stt/en-in/vosk-model-small-en-in-0.4.7z"@),
        ("vosk-model-small-en-us-0.15"@, "https://huggingface.co/Derur/vosk-models/resolve/main/stt/en-us/vosk-model-small-en-us-0.15.7z"@),
        ("vosk-model-small-en-us-zamia-0.5"@, "https://huggingface.co/Derur/vosk-models/resolve/main/stt/en-us_other/vosk-model-small-en-us-zamia-0.5.7z"@),
        ("vosk-model-small-eo-0.42"@, "https://huggingface.co/Derur/vosk-models/resolve/main/stt/eo/vosk-model-small-eo-0.42.7z"@),
        ("vosk-model-small-es-0.42"@, "https://huggingface.co/Derur/vosk-models/resolve/main/stt/es/vosk-model-small-es-0.42.7z"@),
        ("vosk-model-small-fa-0.42"@, "https://huggingface.co/Derur/vosk-models/resolve/main/stt/fa/vosk-model-small-fa-0.42.7z"@),
        ("vosk-model-small-fa-0.5"@, "https://huggingface.co/Derur/vosk-models/resolve/main/stt/fa_other/vosk-model-small-fa-0.5.7z"@),
        ("vosk-model-small-fr-0.22"@, "https://huggingface.co/Derur/vosk-models/resolve/main/stt/fr/vosk-model-small-fr-0.22.7z"@),
        ("vosk-model-small-fr-pguyot-0.3"@, "https://huggingface.co/Derur/vosk-models/resolve/main/stt/fr_other/vosk-model-small-fr-pguyot-0.3.7z"@),
        ("vosk-model-small-gu-0.42"@, "https://huggingface.co/Derur/vosk-models/resolve/main/stt/gu/vosk-model-small-gu-0.42.7z"@),
        ("vosk-model-small-hi-0.22"@, "https://huggingface.co/Derur/vosk-models/resolve/main/stt/hi/vosk-model-small-hi-0.22.7z"@),
        ("vosk-model-small-it-0.22"@, "https://huggingface.co/Derur/vosk-models/resolve/main/stt/it/vosk-model-small-it-0.22.7z"@),
        ("vosk-model-small-ja-0.22"@, "https://huggingface.co/Derur/vosk-models/resolve/main/stt/ja/vosk-model-small-ja-0.22.7z"@),
        ("vosk-model-small-ko-0.22"@, "https://huggingface.co/Derur/vosk-models/resolve/main/stt/ko/vosk-model-small-ko-0.22.7z"@),
        ("vosk-model-small-kz-0.15"@, "https://huggingface.co/Derur/vosk-models/resolve/main/stt/kz/vosk-model-small-kz-0.15.7z"@),
        ("vosk-model-small-nl-0.22"@, "https://huggingface.co/Derur/vosk-models/resolve/main/stt/nl/vosk-model-small-nl-0.22.7z"@),
        ("vosk-model-small-pl-0.22"@, "https://huggingface.co/Derur/vosk-models/resolve/main/stt/pl/vosk-model-small-pl-0.22.7z"@),
        ("vosk-model-small-pt-0.3"@, "https://huggingface.co/Derur/vosk-models/resolve/main/stt/pt/vosk-model-small-pt-0.3.7z"@),
        ("vosk-model-small-ru-0.22"@, "https://huggingface.co/Derur/vosk-models/resolve/main/stt/ru/vosk-model-small-ru-0.22.7z"@),
        ("vosk-model-small-sv-rhasspy-0.15"@, "https://huggingface.co/Derur/vosk-models/resolve/main/stt/sv/vosk-model-small-sv-rhasspy-0.15.7z"@),
        ("vosk-model-small-te-0.42"@, "https://huggingface.co/Derur/vosk-models/resolve/main/stt/te/vosk-model-small-te-0.42.7z"@),
        ("vosk-model-small-tg-0.22"@, "https://huggingface.co/Derur/vosk-models/resolve/main/stt/tg/vosk-model-small-tg-0.22.7z"@),
        ("vosk-model-small-tr-0.3"@, "https://huggingface.co/Derur/vosk-models/resolve/main/stt/tr/vosk-model-small-tr-0.3.7z"@),
        ("vosk-model-small-uk-v3-nano"@, "https://huggingface.co/Derur/vosk-models/resolve/main/stt/uk/vosk-model-small-uk-v3-nano.7z"@),
        ("vosk-model-small-uk-v3-small"@, "https://huggingface.co/Derur/vosk-models/resolve/main/stt/uk/vosk-model-small-uk-v3-small.7z"@),
        ("vosk-model-small-uz-0.22"@, "https://huggingface.co/Derur/vosk-models/resolve/main/stt/uz/vosk-model-small-uz-0.22.7z"@),
        ("vosk-model-small-vn-0.4"@, "https://huggingface.co/Derur/vosk-models/resolve/main/stt/vn/vosk-model-small-vn-0.4.7z"@),
    ]
}

fn push_definition(defs: &mut Vec<ModelDefinition>, d: ModelDefinition)
    ensures
        definitions_view(final(defs)@) == definitions_view(old(defs)@).push((d.id@, d.url@)),
{
    let ghost before = defs@;
    defs.push(d);
    assert(definitions_view(defs@) =~= definitions_view(before).push((d.id@, d.url@)));
}

/// The official Vosk models.
#[verifier::rlimit(40)]
pub fn vosk_model_definitions() -> (r: Vec<ModelDefinition>)
    ensures
        definitions_view(r@) == vosk_catalog(),
{
    let mut defs: Vec<ModelDefinition> = Vec::new();
    push_definition(&mut defs, ModelDefinition { id: "vosk-model-small-ar-tn-0.1-linto", url: "https://huggingface.co/Derur/vosk-models/resolve/main/stt/ar-tn/vosk-model-small-ar-tn-0.1-linto.7z" });
    push_definition(&mut defs, ModelDefinition { id: "vosk-model-small-ca-0.4", url: "https://huggingface.co/Derur/vosk-models/resolve/main/stt/ca/vosk-model-small-ca-0.4.7z" });
    push_definition(&mut defs, ModelDefinition { id: "vosk-model-small-cn-0.22", url: "https://huggingface.co/Derur/vosk-models/resolve/main/stt/cn/vosk-model-small-cn-0.22.7z" });
    push_definition(&mut defs, ModelDefinition { id: "vosk-model-small-cs-0.4-rhasspy", url: "https://huggingface.co/Derur/vosk-models/resolve/main/stt/cs/vosk-model-small-cs-0.4-rhasspy.7z" });
    push_definition(&mut defs, ModelDefinition { id: "vosk-model-small-de-0.15", url: "https://huggingface.co/Derur/vosk-models/resolve/main/stt/de/vosk-model-small-de-0.15.7z" });
    push_definition(&mut defs, ModelDefinition { id: "vosk-model-small-de-zamia-0.3", url: "https://huggingface.co/Derur/vosk-models/resolve/main/stt/de/vosk-model-small-de-zamia-0.3.7z" });
    push_definition(&mut defs, ModelDefinition { id: "vosk-model-small-en-in-0.4", url: "https://huggingface.co/Derur/vosk-models/resolve/main/stt/en-in/vosk-model-small-en-in-0.4.7z" });
    push_definition(&mut defs, ModelDefinition { id: "vosk-model-small-en-us-0.15", url: "https://huggingface.co/Derur/vosk-models/resolve/main/stt/en-us/vosk-model-small-en-us-0.15.7z" });
    push_definition(&mut defs, ModelDefinition { id: "vosk-model-small-en-us-zamia-0.5", url: "https://huggingface.co/Derur/vosk-models/resolve/main/stt/en-us_other/vosk-model-small-en-us-zamia-0.5.7z" });
    push_definition(&mut defs, ModelDefinition { id: "vosk-model-small-eo-0.42", url: "https://huggingface.co/Derur/vosk-models/resolve/main/stt/eo/vosk-model-small-eo-0.42.7z" });
    push_definition(&mut defs, ModelDefinition { id: "vosk-model-small-es-0.42", url: "https://huggingface.co/Derur/vosk-models/resolve/main/stt/es/vosk-model-small-es-0.42.7z" });
    push_definition(&mut defs, ModelDefinition { id: "vosk-model-small-fa-0.42", url: "https://huggingface.co/Derur/vosk-models/resolve/main/stt/fa/vosk-model-small-fa-0.42.7z" });
    push_definition(&mut defs, ModelDefinition { id: "vosk-model-small-fa-0.5", url: "https://huggingface.co/Derur/vosk-models/resolve/main/stt/fa_other/vosk-model-small-fa-0.5.7z" });
    push_definition(&mut defs, ModelDefinition { id: "vosk-model-small-fr-0.22", url: "https://huggingface.co/Derur/vosk-models/resolve/main/stt/fr/vosk-model-small-fr-0.22.7z" });
    push_definition(&mut defs, ModelDefinition { id: "vosk-model-small-fr-pguyot-0.3", url: "https://huggingface.co/Derur/vosk-models/resolve/main/stt/fr_other/vosk-model-small-fr-pguyot-0.3.7z" });
    push_definition(&mut defs, ModelDefinition { id: "vosk-model-small-gu-0.42", url: "https://huggingface.co/Derur/vosk-models/resolve/main/stt/gu/vosk-model-small-gu-0.42.7z" });
    push_definition(&mut defs, ModelDefinition { id: "vosk-model-small-hi-0.22", url: "https://huggingface.co/Derur/vosk-models/resolve/main/stt/hi/vosk-model-small-hi-0.22.7z" });
    push_definition(&mut defs, ModelDefinition { id: "vosk-model-small-it-0.22", url: "https://huggingface.co/Derur/vosk-models/resolve/main/stt/it/vosk-model-small-it-0.22.7z" });
    push_definition(&mut defs, ModelDefinition { id: "vosk-model-small-ja-0.22", url: "https://huggingface.co/Derur/vosk-models/resolve/main/stt/ja/vosk-model-small-ja-0.22.7z" });
    push_definition(&mut defs, ModelDefinition { id: "vosk-model-small-ko-0.22", url: "https://huggingface.co/Derur/vosk-models/resolve/main/stt/ko/vosk-model-small-ko-0.22.7z" });
    push_definition(&mut defs, ModelDefinition { id: "vosk-model-small-kz-0.15", url: "https://huggingface.co/Derur/vosk-models/resolve/main/stt/kz/vosk-model-small-kz-0.15.7z" });
    push_definition(&mut defs, ModelDefinition { id: "vosk-model-small-nl-0.22", url: "https://huggingface.co/Derur/vosk-models/resolve/main/stt/nl/vosk-model-small-nl-0.22.7z" });
    push_definition(&mut defs, ModelDefinition { id: "vosk-model-small-pl-0.22", url: "https://huggingface.co/Derur/vosk-models/resolve/main/stt/pl/vosk-model-small-pl-0.22.7z" });
    push_definition(&mut defs, ModelDefinition { id: "vosk-model-small-pt-0.3", url: "https://huggingface.co/Derur/vosk-models/resolve/main/stt/pt/vosk-model-small-pt-0.3.7z" });
    push_definition(&mut defs, ModelDefinition { id: "vosk-model-small-ru-0.22", url: "https://huggingface.co/Derur/vosk-models/resolve/main/stt/ru/vosk-model-small-ru-0.22.7z" });
    push_definition(&mut defs, ModelDefinition { id: "vosk-model-small-sv-rhasspy-0.15", url: "https://huggingface.co/Derur/vosk-models/resolve/main/stt/sv/vosk-model-small-sv-rhasspy-0.15.7z" });
    push_definition(&mut defs, ModelDefinition { id: "vosk-model-small-te-0.42", url: "https://huggingface.co/Derur/vosk-models/resolve/main/stt/te/vosk-model-small-te-0.42.7z" });
    push_definition(&mut defs, ModelDefinition { id: "vosk-model-small-tg-0.22", url: "https://huggingface.co/Derur/vosk-models/resolve/main/stt/tg/vosk-model-small-tg-0.22.7z" });
    push_definition(&mut defs, ModelDefinition { id: "vosk-model-small-tr-0.3", url: "https://huggingface.co/Derur/vosk-models/resolve/main/stt/tr/vosk-model-small-tr-0.3.7z" });
    push_definition(&mut defs, ModelDefinition { id: "vosk-model-small-uk-v3-nano", url: "https://huggingface.co/Derur/vosk-models/resolve/main/stt/uk/vosk-model-small-uk-v3-nano.7z" });
    push_definition(&mut defs, ModelDefinition { id: "vosk-model-small-uk-v3-small", url: "https://huggingface.co/Derur/vosk-models/resolve/main/stt/uk/vosk-model-small-uk-v3-small.7z" });
    push_definition(&mut defs, ModelDefinition { id: "vosk-model-small-uz-0.22", url: "https://huggingface.co/Derur/vosk-models/resolve/main/stt/uz/vosk-model-small-uz-0.22.7z" });
    push_definition(&mut defs, ModelDefinition { id: "vosk-model-small-vn-0.4", url: "https://huggingface.co/Derur/vosk-models/resolve/main/stt/vn/vosk-model-small-vn-0.4.7z" });
    assert(definitions_view(defs@) =~= vosk_catalog());
    defs
}

/// The official speech recognition models.
pub open spec fn stt_catalog() -> Seq<(Seq<char>, Seq<char>)> {
    seq![
        ("sherpa-onnx-sense-voice-zh-en-ja-ko-yue-int8-2024-07-17"@, "https://github.com/k2-fsa/sherpa-onnx/releases/download/asr-models/sherpa-onnx-sense-voice-zh-en-ja-ko-yue-int8-2024-07-17.tar.bz2"@),
    ]
}

/// The official speech synthesis models.
pub open spec fn tts_catalog() -> Seq<(Seq<char>, Seq<char>)> {
    seq![
        ("vits-melo-tts-zh_en"@, "https://github.com/k2-fsa/sherpa-onnx/releases/download/tts-models/vits-melo-tts-zh_en.tar.bz2"@),
    ]
}

/// The official speech recognition models.
pub fn stt_model_definitions() -> (r: Vec<ModelDefinition>)
    ensures
        definitions_view(r@) == stt_catalog(),
{
    let mut defs: Vec<ModelDefinition> = Vec::new();
    push_definition(&mut defs, ModelDefinition {
        id: "sherpa-onnx-sense-voice-zh-en-ja-ko-yue-int8-2024-07-17",
        url: "https://github.com/k2-fsa/sherpa-onnx/releases/download/asr-models/sherpa-onnx-sense-voice-zh-en-ja-ko-yue-int8-2024-07-17.tar.bz2",
    });
    assert(definitions_view(defs@) =~= stt_catalog());
    defs
}

/// The official speech synthesis models.
pub fn tts_model_definitions() -> (r: Vec<ModelDefinition>)
    ensures
        definitions_view(r@) == tts_catalog(),
{
    let mut defs: Vec<ModelDefinition> = Vec::new();
    push_definition(&mut defs, ModelDefinition {
        id: "vits-melo-tts-zh_en",
        url: "https://github.com/k2-fsa/sherpa-onnx/releases/download/tts-models/vits-melo-tts-zh_en.tar.bz2",
    });
    assert(definitions_view(defs@) =~= tts_catalog());
    defs
}


/// The first definition of a list with the id `id`.
pub open spec fn definition_for(defs: Seq<(Seq<char>, Seq<char>)>, id: Seq<char>) -> Option<
    (Seq<char>, Seq<char>),
>
    decreases defs.len(),
{
    if defs.len() == 0 {
        None
    } else if defs[0].0 == id {
        Some(defs[0])
    } else {
        definition_for(defs.drop_first(), id)
    }
}

/// Why a download request is refused.
#[derive(Clone, Copy, Debug, PartialEq, Eq, Structural)]
pub enum DownloadRequestError {
    /// The model is not on the official list.
    UnknownModel,
    /// The requested address is neither the official one nor its mirror.
    UrlMismatch,
}

/// The address a model of the official list `defs` is downloaded from: a
/// request may leave the address blank or give the official address or its
/// mirror; the official address is used in every case.
pub open spec fn download_request(defs: Seq<(Seq<char>, Seq<char>)>, model_id: Seq<char>, url: Seq<char>) -> Result<
    Seq<char>,
    DownloadRequestError,
> {
    match definition_for(defs, model_id) {
        None => Err(DownloadRequestError::UnknownModel),
        Some(d) => if is_blank(url) || recognized_url(url, d.1) {
            Ok(d.1)
        } else {
            Err(DownloadRequestError::UrlMismatch)
        },
    }
}

/// Checks a download request against an official list of models.
pub fn check_download_request(defs: &Vec<ModelDefinition>, model_id: &str, url: &str) -> (r: Result<
    &'static str,
    DownloadRequestError,
>)
    ensures
        match r {
            Ok(u) => download_request(definitions_view(defs@), model_id@, url@) == Ok::<
                Seq<char>,
                DownloadRequestError,
            >(u@),
            Err(e) => download_request(definitions_view(defs@), model_id@, url@) == Err::<
                Seq<char>,
                DownloadRequestError,
            >(e),
        },
{
    let ghost all = definitions_view(defs@);
    let n = defs.len();
    let mut i: usize = 0;
    assert(all.skip(0) == all);
    while i < n
        invariant
            n == defs@.len(),
            all == definitions_view(defs@),
            i <= n,
            definition_for(all, model_id@) == definition_for(all.skip(i as int), model_id@),
        decreases n - i,
    {
        assert(all.skip(i as int)[0] == (defs@[i as int].id@, defs@[i as int].url@));
        assert(all.skip(i as int).drop_first() == all.skip(i as int + 1));
        let d = defs[i];
        if str_eq(d.id, model_id) {
            if is_blank_str(url) || is_recognized_download_url(url, d.url) {
                return Ok(d.url);
            }
            return Err(DownloadRequestError::UrlMismatch);
        }
        i += 1;
    }
    Err(DownloadRequestError::UnknownModel)
}

/// The message for a refused download request; `kind` names the model
/// family, as in `Vosk`.
pub fn download_request_error_message(e: DownloadRequestError, kind: &str, model_id: &str) -> (r: String)
    ensures
        r@ == match e {
            DownloadRequestError::UnknownModel => "Unknown "@ + kind@ + " model '"@ + model_id@ + "'."@,
            DownloadRequestError::UrlMismatch => "Download URL for '"@ + model_id@
                + "' does not match the official model list."@,
        },
{
    match e {
        DownloadRequestError::UnknownModel => String::from_str("Unknown ").concat(kind).concat(
            " model '",
        ).concat(model_id).concat("'."),
        DownloadRequestError::UrlMismatch => String::from_str("Download URL for '").concat(
            model_id,
        ).concat("' does not match the official model list."),
    }
}

/// The id of the screen arrow recognition model.
pub open spec fn vision_model_id() -> Seq<char> {
    "helldivers2-console-command-arrow-yolo-v8n"@
}

/// The address of the screen arrow recognition model.
pub open spec fn vision_model_url() -> Seq<char> {
    "https://huggingface.co/hewunlyceum/helldivers2_console_command_arrow/resolve/main/helldivers2_console_command_arrow.onnx"@
}

/// The screen arrow recognition model.
pub fn vision_model_definition() -> (r: ModelDefinition)
    ensures
        r.id@ == vision_model_id(),
        r.url@ == vision_model_url(),
{
    ModelDefinition {
        id: "helldivers2-console-command-arrow-yolo-v8n",
        url: "https://huggingface.co/hewunlyceum/helldivers2_console_command_arrow/resolve/main/helldivers2_console_command_arrow.onnx",
    }
}

/// The address the vision model is downloaded from: the request must name
/// the model exactly and leave the address blank or give the official one.
pub open spec fn vision_download_request(model_id: Seq<char>, url: Seq<char>) -> Result<
    Seq<char>,
    DownloadRequestError,
> {
    if model_id != vision_model_id() {
        Err(DownloadRequestError::UnknownModel)
    } else if is_blank(url) || url == vision_model_url() {
        Ok(vision_model_url())
    } else {
        Err(DownloadRequestError::UrlMismatch)
    }
}

/// Checks a vision model download request.
pub fn check_vision_download_request(model_id: &str, url: &str) -> (r: Result<&'static str, DownloadRequestError>)
    ensures
        match r {
            Ok(u) => vision_download_request(model_id@, url@) == Ok::<Seq<char>, DownloadRequestError>(u@),
            Err(e) => vision_download_request(model_id@, url@) == Err::<Seq<char>, DownloadRequestError>(e),
        },
{
    let d = vision_model_definition();
    if !str_eq(model_id, d.id) {
        return Err(DownloadRequestError::UnknownModel);
    }
    if is_blank_str(url) || str_eq(url, d.url) {
        Ok(d.url)
    } else {
        Err(DownloadRequestError::UrlMismatch)
    }
}

/// The vision model a setting selects: nothing when blank, the vision model
/// when it names it (after trimming), an error otherwise.
pub fn vision_model_selection(model_id: &str) -> (r: Result<bool, String>)
    ensures
        match r {
            Ok(selected) => selected == !is_blank(model_id@) && (selected ==> trimmed(model_id@)
                == vision_model_id()),
            Err(m) => !is_blank(model_id@) && trimmed(model_id@) != vision_model_id() && m@
                == "Unknown vision model '"@ + trimmed(model_id@) + "'."@,
        },
{
    if is_blank_str(model_id) {
        return Ok(false);
    }
    let t = trim_str(model_id);
    if str_eq(t.as_str(), "helldivers2-console-command-arrow-yolo-v8n") {
        Ok(true)
    } else {
        Err(String::from_str("Unknown vision model '").concat(t.as_str()).concat("'."))
    }
}

/// The model a setting selects: its id trimmed, nothing when blank.
pub fn selected_model_id(model_id: &str) -> (r: Option<String>)
    ensures
        match r {
            Some(s) => !is_blank(model_id@) && s@ == trimmed(model_id@),
            None => is_blank(model_id@),
        },
{
    if is_blank_str(model_id) {
        None
    } else {
        Some(trim_str(model_id))
    }
}

/// The message for a selected model that is not downloaded; `kind` names
/// the model family, as in `Vosk`.
pub fn model_not_downloaded_message(kind: &str, model_id: &str) -> (r: String)
    ensures
        r@ == kind@ + " model '"@ + model_id@ + "' is not downloaded. Please download it first."@,
{
    String::from_str(kind).concat(" model '").concat(model_id).concat(
        "' is not downloaded. Please download it first.",
    )
}

/// The message for a file missing from a downloaded speech model.
pub fn missing_model_file_message(label: &str, displayed_path: &str) -> (r: String)
    ensures
        r@ == label@ + " is missing at '"@ + displayed_path@
            + "'. Please re-download the selected sherpa model."@,
{
    String::from_str(label).concat(" is missing at '").concat(displayed_path).concat(
        "'. Please re-download the selected sherpa model.",
    )
}

/// Whether a character may stay in a link name: ASCII letters and digits,
/// `-`, `_` and `.`.
pub open spec fn is_link_char(c: char) -> bool {
    ('a' <= c <= 'z') || ('A' <= c <= 'Z') || ('0' <= c <= '9') || c == '-' || c == '_' || c == '.'
}

/// The link name of a model id: trimmed, other characters replaced by `-`,
/// `-` stripped from both ends; `fallback` when nothing is left.
pub open spec fn link_name(model_id: Seq<char>, fallback: Seq<char>) -> Seq<char> {
    let s = strip_ends(
        trimmed(model_id).map_values(|c: char| if is_link_char(c) { c } else { '-' }),
        |c: char| c == '-',
    );
    if s.len() == 0 {
        fallback
    } else {
        s
    }
}

/// The name of the link that stands for a model directory whose path is
/// not ASCII.
pub fn sanitize_model_id_for_link_name(model_id: &str, fallback: &str) -> (r: String)
    ensures
        r@ == link_name(model_id@, fallback@),
{
    let t = trim_str(model_id);
    let chars = chars_of(t.as_str());
    let mut mapped: Vec<char> = Vec::new();
    let n = chars.len();
    let mut i: usize = 0;
    while i < n
        invariant
            n == chars@.len(),
            i <= n,
            mapped@ == chars@.take(i as int).map_values(
                |c: char| if is_link_char(c) { c } else { '-' },
            ),
        decreases n - i,
    {
        let c = chars[i];
        let m = if ('a' <= c && c <= 'z') || ('A' <= c && c <= 'Z') || ('0' <= c && c <= '9') || c
            == '-' || c == '_' || c == '.' {
            c
        } else {
            '-'
        };
        mapped.push(m);
        assert(mapped@ =~= chars@.take(i as int + 1).map_values(
            |c: char| if is_link_char(c) { c } else { '-' },
        ));
        i += 1;
    }
    assert(chars@.take(n as int) == chars@);
    let stripped = crate::text::strip_char_ends(&mapped, '-');
    if stripped.len() == 0 {
        String::from_str(fallback)
    } else {
        string_of(&stripped)
    }
}

/// Whether a path's text holds a character outside ASCII.
pub open spec fn has_non_ascii(s: Seq<char>) -> bool {
    exists|i: int| 0 <= i < s.len() && (s[i] as u32) > 0x7f
}

/// Whether a path's text holds a character outside ASCII.
pub fn path_contains_non_ascii(path_text: &str) -> (r: bool)
    ensures
        r == has_non_ascii(path_text@),
{
    let chars = chars_of(path_text);
    let n = chars.len();
    let mut i: usize = 0;
    while i < n
        invariant
            n == chars@.len(),
            chars@ == path_text@,
            i <= n,
            forall|k: int| 0 <= k < i ==> (chars@[k] as u32) <= 0x7f,
        decreases n - i,
    {
        if (chars[i] as u32) > 0x7f {
            return true;
        }
        i += 1;
    }
    false
}


/// A Vosk model of the official list and whether it is downloaded.
#[derive(Debug)]
pub struct AvailableVoskModel {
    pub id: String,
    pub url: String,
    pub is_downloaded: bool,
}

impl AvailableVoskModel {
    /// The entry of a definition.
    pub fn of(definition: &ModelDefinition, is_downloaded: bool) -> (r: Self)
        ensures
            r.id@ == definition.id@,
            r.url@ == definition.url@,
            r.is_downloaded == is_downloaded,
    {
        AvailableVoskModel {
            id: String::from_str(definition.id),
            url: String::from_str(definition.url),
            is_downloaded,
        }
    }
}

/// A speech model of the official list and whether it is downloaded.
#[derive(Debug)]
pub struct AvailableSherpaModel {
    pub id: String,
    pub url: String,
    pub is_downloaded: bool,
}

impl AvailableSherpaModel {
    /// The entry of a definition.
    pub fn of(definition: &ModelDefinition, is_downloaded: bool) -> (r: Self)
        ensures
            r.id@ == definition.id@,
            r.url@ == definition.url@,
            r.is_downloaded == is_downloaded,
    {
        AvailableSherpaModel {
            id: String::from_str(definition.id),
            url: String::from_str(definition.url),
            is_downloaded,
        }
    }
}

/// The vision model and whether it is downloaded.
#[derive(Debug)]
pub struct AvailableVisionModel {
    pub id: String,
    pub url: String,
    pub is_downloaded: bool,
}

impl AvailableVisionModel {
    /// The entry of a definition.
    pub fn of(definition: &ModelDefinition, is_downloaded: bool) -> (r: Self)
        ensures
            r.id@ == definition.id@,
            r.url@ == definition.url@,
            r.is_downloaded == is_downloaded,
    {
        AvailableVisionModel {
            id: String::from_str(definition.id),
            url: String::from_str(definition.url),
            is_downloaded,
        }
    }
}

/// The files of a speech recognition model, as path text.
#[derive(Debug)]
pub struct SherpaSttModelPaths {
    pub model: String,
    pub tokens: String,
}

/// The files of a speech synthesis model, as path text.
#[derive(Debug)]
pub struct SherpaTtsModelPaths {
    pub model: String,
    pub tokens: String,
    pub lexicon: String,
    pub dict_dir: String,
    /// The text normalization rules the model ships, of those it may ship.
    pub rule_fsts: Vec<String>,
}

/// The libraries of the speech runtime, as path text.
#[derive(Debug)]
pub struct SherpaRuntimePaths {
    pub c_api_dll: String,
    pub onnxruntime_dll: String,
}

/// The rule files a speech synthesis model may ship, in the order they are
/// applied.
pub fn tts_rule_fst_names() -> (r: Vec<&'static str>)
    ensures
        r@.map_values(|s: &str| s@) == seq![
            "number.fst"@,
            "phone.fst"@,
            "date.fst"@,
            "new_heteronym.fst"@,
        ],
{
    let r = vec!["number.fst", "phone.fst", "date.fst", "new_heteronym.fst"];
    assert(r@.map_values(|s: &str| s@) =~= seq![
        "number.fst"@,
        "phone.fst"@,
        "date.fst"@,
        "new_heteronym.fst"@,
    ]);
    r
}

} // verus!
