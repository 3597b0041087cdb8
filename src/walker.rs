//! Admission of directory entries and the records that a walk emits for them.
use vstd::prelude::*;
use crate::text::{
    after_last, after_last_chars, chars_of, ends_with, ends_with_chars, normalize, normalize_chars,
    string_of,
};
use crate::wildcard::{
    check_pattern, is_folder_path_regex_match, pattern_outcome, reduce, regex_compiles, PatternError,
};

verus! {

/// A hash of a path's text.
pub uninterp spec fn path_hash_of(path: Seq<char>) -> u64;

/// The lowercase form of a text.
pub uninterp spec fn lower_of(s: Seq<char>) -> Seq<char>;

/// Relies on `str::hash` fed to a fresh `std::collections::hash_map::DefaultHasher`;
/// every hasher that `DefaultHasher::new` creates is the same, so the hash depends on
/// the text alone.
#[verifier::external_body]
pub(crate) fn path_hash(path: &str) -> (r: u64)
    ensures
        r == path_hash_of(path@),
{
    let mut hasher = std::collections::hash_map::DefaultHasher::new();
    std::hash::Hash::hash(path, &mut hasher);
    std::hash::Hasher::finish(&hasher)
}

/// Relies on `str::to_lowercase`: the result depends on the characters alone.
#[verifier::external_body]
pub(crate) fn lowercase(s: &str) -> (r: String)
    ensures
        r@ == lower_of(s@),
{
    s.to_lowercase()
}

/// The walk's configuration: extension lists, path patterns, strategy and depth.
pub struct Settings {
    pub exclude_extensions: Vec<String>,
    pub include_extensions: Vec<String>,
    pub exclude_paths: Vec<String>,
    pub include_paths: Vec<String>,
    pub multi_thread_enabled: bool,
    pub depth: i32,
}

/// What the walk knows of one directory entry once it has been listed.
pub struct EntryInfo {
    /// The entry's full path.
    pub path: String,
    /// The entry's own name, its final component.
    pub name: String,
    pub is_dir: bool,
    pub is_file: bool,
    /// The entry is one of the paths that the include patterns expand to on disk.
    pub glob_included: bool,
}

/// The admission decision for an entry, tagged with its reason.
#[derive(Debug, Clone, Copy, PartialEq, Eq, Structural)]
pub enum Admission {
    /// A file rejected by the extension lists.
    SkippedExt,
    /// A directory that an include pattern expands to.
    PathIncluded,
    /// A directory whose path ends with an exclude pattern.
    PathExcluded,
    /// An exclude pattern matches the path.
    ExcludedRegex,
    /// An include pattern matches the path.
    IncludedRegex,
    /// Nothing admits the entry.
    Skipped,
}

impl Admission {
    pub open spec fn spec_admitted(self) -> bool {
        match self {
            Admission::PathIncluded | Admission::IncludedRegex => true,
            _ => false,
        }
    }

    pub open spec fn spec_tag(self) -> Seq<char> {
        match self {
            Admission::SkippedExt => "skipped-ext"@,
            Admission::PathIncluded => "path-included"@,
            Admission::PathExcluded => "path-excluded"@,
            Admission::ExcludedRegex => "excluded-regex"@,
            Admission::IncludedRegex => "included-regex"@,
            Admission::Skipped => "skipped"@,
        }
    }

    /// The reason category under which the decision is reported.
    pub fn tag(&self) -> (r: &'static str)
        ensures
            r@ == self.spec_tag(),
    {
        match self {
            Admission::SkippedExt => "skipped-ext",
            Admission::PathIncluded => "path-included",
            Admission::PathExcluded => "path-excluded",
            Admission::ExcludedRegex => "excluded-regex",
            Admission::IncludedRegex => "included-regex",
            Admission::Skipped => "skipped",
        }
    }

    /// Whether the entry stays in the walk's output.
    pub fn admitted(&self) -> (r: bool)
        ensures
            r == self.spec_admitted(),
    {
        match self {
            Admission::PathIncluded | Admission::IncludedRegex => true,
            _ => false,
        }
    }
}

pub open spec fn views(v: Seq<String>) -> Seq<Seq<char>> {
    v.map_values(|s: String| s@)
}

pub open spec fn seq_has(list: Seq<Seq<char>>, x: Seq<char>) -> bool {
    exists|i: int| 0 <= i < list.len() && list[i] == x
}

pub open spec fn any_suffix(list: Seq<Seq<char>>, s: Seq<char>) -> bool {
    exists|i: int| 0 <= i < list.len() && ends_with(s, list[i])
}

/// Scans the patterns in order: `Some(true)` at the first that matches, `None` at the
/// first that does not compile before that, `Some(false)` when none matches.
pub open spec fn first_match(path: Seq<char>, pats: Seq<Seq<char>>) -> Option<bool>
    decreases pats.len(),
{
    if pats.len() == 0 {
        Some(false)
    } else {
        match pattern_outcome(path, pats[0]) {
            None => None,
            Some(true) => Some(true),
            Some(false) => first_match(path, pats.subrange(1, pats.len() as int)),
        }
    }
}

/// The extension of a path: the text after its last dot.
pub open spec fn extension_of(path: Seq<char>) -> Seq<char> {
    after_last(path, '.')
}

/// An extension fails the lists when the include list is non-empty and lacks it, or
/// the exclude list has it.
pub open spec fn extension_rejected(s: &Settings, ext: Seq<char>) -> bool {
    (s.include_extensions@.len() > 0 && !seq_has(views(s.include_extensions@), ext)) || seq_has(
        views(s.exclude_extensions@),
        ext,
    )
}

/// The admission rule; `None` when a pattern that had to be tried does not compile.
/// A file first meets the extension lists; a directory first meets the glob
/// expansion and the exclude suffixes of its normalized lowercase path. Then the
/// exclude patterns, the include patterns, and denial.
pub open spec fn admission_of(s: &Settings, e: &EntryInfo) -> Option<Admission> {
    let lower = lower_of(e.path@);
    if e.is_file && extension_rejected(s, extension_of(lower)) {
        Some(Admission::SkippedExt)
    } else if !e.is_file && e.glob_included {
        Some(Admission::PathIncluded)
    } else if !e.is_file && any_suffix(views(s.exclude_paths@), normalize(lower)) {
        Some(Admission::PathExcluded)
    } else {
        match first_match(e.path@, views(s.exclude_paths@)) {
            None => None,
            Some(true) => Some(Admission::ExcludedRegex),
            Some(false) => match first_match(e.path@, views(s.include_paths@)) {
                None => None,
                Some(true) => Some(Admission::IncludedRegex),
                Some(false) => Some(Admission::Skipped),
            },
        }
    }
}

pub open spec fn all_compile(pats: Seq<Seq<char>>) -> bool {
    forall|i: int| 0 <= i < pats.len() ==> regex_compiles(reduce(#[trigger] pats[i]))
}

/// Every path pattern of the settings is a valid regular expression once reduced.
pub open spec fn patterns_valid(s: &Settings) -> bool {
    all_compile(views(s.exclude_paths@)) && all_compile(views(s.include_paths@))
}

fn check_patterns(pats: &Vec<String>) -> (r: Result<(), PatternError>)
    ensures
        r is Ok <==> all_compile(views(pats@)),
{
    let mut i: usize = 0;
    while i < pats.len()
        invariant
            i <= pats.len(),
            forall|j: int| 0 <= j < i ==> regex_compiles(reduce(#[trigger] views(pats@)[j])),
        decreases pats.len() - i,
    {
        match check_pattern(pats[i].as_str()) {
            Err(e) => {
                assert(!regex_compiles(reduce(views(pats@)[i as int])));
                return Err(e);
            },
            Ok(()) => {},
        }
        i += 1;
    }
    Ok(())
}

/// Rejects settings with a path pattern that does not compile, before any walk.
pub fn validate_settings(settings: &Settings) -> (r: Result<(), PatternError>)
    ensures
        r is Ok <==> patterns_valid(settings),
{
    check_patterns(&settings.exclude_paths)?;
    check_patterns(&settings.include_paths)
}

/// With patterns that all compile, scanning them always gives an answer.
pub proof fn lemma_valid_patterns_decide(path: Seq<char>, pats: Seq<Seq<char>>)
    requires
        all_compile(pats),
    ensures
        first_match(path, pats) is Some,
    decreases pats.len(),
{
    if pats.len() > 0 {
        assert(regex_compiles(reduce(pats[0])));
        let rest = pats.subrange(1, pats.len() as int);
        assert forall|i: int| 0 <= i < rest.len() implies regex_compiles(reduce(#[trigger] rest[i])) by {
            assert(rest[i] == pats[i + 1]);
        }
        lemma_valid_patterns_decide(path, rest);
    }
}

/// Under settings whose patterns all compile, every entry gets a decision.
pub proof fn lemma_valid_settings_admission_total(s: &Settings, e: &EntryInfo)
    requires
        patterns_valid(s),
    ensures
        admission_of(s, e) is Some,
{
    lemma_valid_patterns_decide(e.path@, views(s.exclude_paths@));
    lemma_valid_patterns_decide(e.path@, views(s.include_paths@));
}

/// An entry that no glob expansion, exclude suffix, exclude pattern or include
/// pattern reaches, and that the extension lists do not reject, is denied.
pub proof fn lemma_default_deny(s: &Settings, e: &EntryInfo)
    requires
        e.is_file ==> !extension_rejected(s, extension_of(lower_of(e.path@))),
        !e.glob_included,
        !any_suffix(views(s.exclude_paths@), normalize(lower_of(e.path@))),
        first_match(e.path@, views(s.exclude_paths@)) == Some(false),
        first_match(e.path@, views(s.include_paths@)) == Some(false),
    ensures
        admission_of(s, e) == Some(Admission::Skipped),
        !Admission::Skipped.spec_admitted(),
{
}

/// An entry that an exclude pattern matches is rejected, whatever the include
/// patterns say, unless the extension lists or (for a directory) the glob expansion or
/// an exclude suffix decided first.
pub proof fn lemma_exclude_before_include(s: &Settings, e: &EntryInfo)
    requires
        e.is_file ==> !extension_rejected(s, extension_of(lower_of(e.path@))),
        !e.is_file ==> !e.glob_included,
        first_match(e.path@, views(s.exclude_paths@)) == Some(true),
    ensures
        admission_of(s, e) matches Some(a) && !a.spec_admitted(),
{
}

/// A file whose extension the lists reject is skipped, whatever the patterns say.
pub proof fn lemma_extension_rejects_file(s: &Settings, e: &EntryInfo)
    requires
        e.is_file,
        extension_rejected(s, extension_of(lower_of(e.path@))),
    ensures
        admission_of(s, e) == Some(Admission::SkippedExt),
{
}

fn list_has(list: &Vec<String>, x: &String) -> (r: bool)
    ensures
        r == seq_has(views(list@), x@),
{
    let mut i: usize = 0;
    while i < list.len()
        invariant
            i <= list.len(),
            forall|j: int| 0 <= j < i ==> views(list@)[j] != x@,
        decreases list.len() - i,
    {
        if list[i] == *x {
            assert(views(list@)[i as int] == x@);
            return true;
        }
        i += 1;
    }
    false
}

fn list_has_suffix(list: &Vec<String>, s: &Vec<char>) -> (r: bool)
    ensures
        r == any_suffix(views(list@), s@),
{
    let mut i: usize = 0;
    while i < list.len()
        invariant
            i <= list.len(),
            forall|j: int| 0 <= j < i ==> !ends_with(s@, #[trigger] views(list@)[j]),
        decreases list.len() - i,
    {
        if ends_with_chars(s, &chars_of(list[i].as_str())) {
            assert(ends_with(s@, views(list@)[i as int]));
            return true;
        }
        i += 1;
    }
    false
}

/// Tries the patterns in order against `path`, stopping at the first match.
pub fn first_matching(path: &str, pats: &Vec<String>) -> (r: bool)
    requires
        all_compile(views(pats@)),
    ensures
        first_match(path@, views(pats@)) == Some(r),
{
    let ghost all = views(pats@);
    let mut i: usize = 0;
    proof {
        assert(all.subrange(0, all.len() as int) =~= all);
    }
    while i < pats.len()
        invariant
            i <= pats.len(),
            all == views(pats@),
            all_compile(all),
            first_match(path@, all) == first_match(path@, all.subrange(i as int, all.len() as int)),
        decreases pats.len() - i,
    {
        let ghost rest = all.subrange(i as int, all.len() as int);
        proof {
            assert(rest[0] == pats@[i as int]@);
            assert(rest.subrange(1, rest.len() as int) =~= all.subrange(i + 1, all.len() as int));
            assert(regex_compiles(reduce(all[i as int])));
        }
        if is_folder_path_regex_match(path, pats[i].as_str()) {
            return true;
        }
        i += 1;
    }
    false
}

/// Decides whether an entry is admitted, and why.
pub fn is_path_valid(entry: &EntryInfo, settings: &Settings) -> (r: Admission)
    requires
        patterns_valid(settings),
    ensures
        admission_of(settings, entry) == Some(r),
{
    let path_str = lowercase(entry.path.as_str());
    let lower = chars_of(path_str.as_str());
    if entry.is_file {
        let extension = string_of(&after_last_chars(&lower, '.'));
        let rejected = (settings.include_extensions.len() > 0 && !list_has(
            &settings.include_extensions,
            &extension,
        )) || list_has(&settings.exclude_extensions, &extension);
        if rejected {
            return Admission::SkippedExt;
        }
    } else {
        if entry.glob_included {
            return Admission::PathIncluded;
        }
        if list_has_suffix(&settings.exclude_paths, &normalize_chars(&lower)) {
            return Admission::PathExcluded;
        }
    }
    if first_matching(entry.path.as_str(), &settings.exclude_paths) {
        return Admission::ExcludedRegex;
    }
    if first_matching(entry.path.as_str(), &settings.include_paths) {
        Admission::IncludedRegex
    } else {
        Admission::Skipped
    }
}

} // verus!
