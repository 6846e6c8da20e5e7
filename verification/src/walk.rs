//! Source-tree walk setup: which roots to walk, which file types and globs
//! select files, and whether hidden files and symbolic links are followed.
//! The walk itself (and the binary-file probe on each file) reads the file
//! system and is driven by the caller; the decision on a probed prefix is
//! `is_binary_prefix`.

use crate::cli::SearchArgs;
use ignore::overrides::{Override, OverrideBuilder};
use ignore::types::{Types, TypesBuilder};
use ignore::WalkBuilder;
use std::path::PathBuf;
use crate::lines::is_ws;
use vstd::multiset::Multiset;
use vstd::prelude::*;
use vstd::string::StringExecFns;

verus! {

/// How many leading bytes of a file are probed for a NUL byte.
pub const BINARY_PROBE_BYTES: usize = 8192;

/// What to walk and how.
#[derive(Debug, Clone)]
pub struct WalkConfig {
    pub paths: Vec<PathBuf>,
    pub types: Vec<String>,
    pub globs: Vec<String>,
    pub follow_symlinks: bool,
    pub hidden: bool,
}

/// Errors while setting up a walk.
#[derive(Debug)]
pub enum WalkError {
    UnknownType(String),
    InvalidGlob { glob: String, source: ignore::Error },
    Io(std::io::Error),
}

// ── The `ignore` crate ───────────────────────────────────────────────────────

/// The `ignore` crate's error.
#[verifier::external_type_specification]
#[verifier::external_body]
pub struct ExIgnoreError(ignore::Error);

/// Builder of a file type matcher: type definitions and selections.
#[verifier::external_type_specification]
#[verifier::external_body]
pub struct ExTypesBuilder(TypesBuilder);

/// A file type matcher.
#[verifier::external_type_specification]
#[verifier::external_body]
pub struct ExTypes(Types);

/// Builder of an override glob matcher.
#[verifier::external_type_specification]
#[verifier::external_body]
pub struct ExOverrideBuilder(OverrideBuilder);

/// An override glob matcher.
#[verifier::external_type_specification]
#[verifier::external_body]
pub struct ExOverride(Override);

/// Builder of a directory walk.
#[verifier::external_type_specification]
#[verifier::external_body]
pub struct ExWalkBuilder(WalkBuilder);

/// The names of the file types that a `TypesBuilder` defines.
pub uninterp spec fn type_names(b: TypesBuilder) -> Set<Seq<char>>;

/// The names of the file types that a `TypesBuilder` selects.
pub uninterp spec fn selected_types(b: TypesBuilder) -> Set<Seq<char>>;

/// The names of a `TypesBuilder`'s selections, each as often as it is selected.
pub uninterp spec fn selection_counts(b: TypesBuilder) -> Multiset<Seq<char>>;

/// Whether a `TypesBuilder` holds exactly the crate's default type
/// definitions (names and globs).
pub uninterp spec fn types_defaults_only(b: TypesBuilder) -> bool;

/// The defined type names after `TypesBuilder::add_defaults` on a builder
/// that defines `names`.
pub uninterp spec fn defaults_added(names: Set<Seq<char>>) -> Set<Seq<char>>;

/// Whether the globs that the default type definitions give for these
/// selections, each type's globs as often as it is selected, compile into
/// one glob set.
pub uninterp spec fn default_selection_builds(selections: Multiset<Seq<char>>) -> bool;

/// The names of the file types that a built `Types` matcher selects.
pub uninterp spec fn types_selection(t: Types) -> Set<Seq<char>>;

/// Whether an override builder matches case-insensitively.
pub uninterp spec fn override_case_insensitive(b: OverrideBuilder) -> bool;

/// Whether an override builder accepts unclosed character classes.
pub uninterp spec fn override_allows_unclosed_class(b: OverrideBuilder) -> bool;

/// The globs that an override builder stores, in order, each in the form
/// `OverrideBuilder::add` stores it (see `override_entry`).
pub uninterp spec fn override_stored(b: OverrideBuilder) -> Seq<Seq<char>>;

/// Whether `OverrideBuilder::add` accepts `glob` under the given matching options.
pub uninterp spec fn override_glob_ok(
    glob: Seq<char>,
    case_insensitive: bool,
    allow_unclosed_class: bool,
) -> bool;

/// Whether the stored override globs compile into one glob set under the
/// given matching options.
pub uninterp spec fn override_set_builds(
    lines: Seq<Seq<char>>,
    case_insensitive: bool,
    allow_unclosed_class: bool,
) -> bool;

/// The stored globs that an `Override` matcher was built from, in order.
pub uninterp spec fn override_globs(o: Override) -> Seq<Seq<char>>;

/// The roots that a `WalkBuilder` walks, in order.
pub uninterp spec fn walk_roots(b: WalkBuilder) -> Seq<PathBuf>;

/// Whether a `WalkBuilder` skips hidden files.
pub uninterp spec fn walk_skips_hidden(b: WalkBuilder) -> bool;

/// Whether a `WalkBuilder` follows symbolic links.
pub uninterp spec fn walk_follows_links(b: WalkBuilder) -> bool;

/// The type selection of the matcher installed on a `WalkBuilder` by
/// `WalkBuilder::types`, or `None` when none was installed.
pub uninterp spec fn walk_type_selection(b: WalkBuilder) -> Option<Set<Seq<char>>>;

/// The lines of the override matcher installed on a `WalkBuilder` by
/// `WalkBuilder::overrides`, or `None` when none was installed.
pub uninterp spec fn walk_override_globs(b: WalkBuilder) -> Option<Seq<Seq<char>>>;

/// The outcome of `TypesBuilder::build`, with the unrecognised-type error told apart.
enum TypesBuildError {
    Unrecognized(String),
    Other(ignore::Error),
}

/// `TypesBuilder::new`: a builder with no definitions and no selections.
#[verifier::external_body]
fn types_builder_new() -> (b: TypesBuilder)
    ensures
        type_names(b) == Set::<Seq<char>>::empty(),
        selected_types(b) == Set::<Seq<char>>::empty(),
        selection_counts(b) == Multiset::<Seq<char>>::empty(),
{
    TypesBuilder::new()
}

/// `TypesBuilder::add_defaults`: adds the crate's default definitions to the
/// defined ones (which names they are is not stated: `defaults_added`); on a
/// builder with no definitions the result holds exactly the defaults. The
/// selections stay as they were.
#[verifier::external_body]
fn types_add_defaults(b: &mut TypesBuilder)
    ensures
        type_names(*final(b)) == defaults_added(type_names(*old(b))),
        type_names(*old(b)).subset_of(type_names(*final(b))),
        type_names(*old(b)) == Set::<Seq<char>>::empty() ==> types_defaults_only(*final(b)),
        selected_types(*final(b)) == selected_types(*old(b)),
        selection_counts(*final(b)) == selection_counts(*old(b)),
{
    b.add_defaults();
}

/// `TypesBuilder::definitions`, each taken by its `FileTypeDef::name`: the
/// names of the defined types.
#[verifier::external_body]
fn type_definition_names(b: &TypesBuilder) -> (names: Vec<String>)
    ensures
        forall|i: int| 0 <= i < names@.len() ==> type_names(*b).contains(#[trigger] names@[i]@),
        forall|n: Seq<char>| #[trigger]
            type_names(*b).contains(n) ==> exists|i: int| 0 <= i < names@.len() && names@[i]@ == n,
{
    b.definitions().iter().map(|d| d.name().to_string()).collect()
}

/// `TypesBuilder::select`: selects the named type, or every defined type once
/// for `all`; the definitions stay as they were.
#[verifier::external_body]
fn types_select(b: &mut TypesBuilder, name: &str)
    ensures
        type_names(*final(b)) == type_names(*old(b)),
        types_defaults_only(*final(b)) == types_defaults_only(*old(b)),
        selection_counts(*final(b)) == if name@ == "all"@ {
            selection_counts(*old(b)).add(Multiset::from_set(type_names(*old(b))))
        } else {
            selection_counts(*old(b)).insert(name@)
        },
        selected_types(*final(b)) == if name@ == "all"@ {
            selected_types(*old(b)).union(type_names(*old(b)))
        } else {
            selected_types(*old(b)).insert(name@)
        },
{
    b.select(name);
}

/// `TypesBuilder::build`, with its `UnrecognizedFileType` error told apart
/// from the others. It fails when a selected type is not defined (that error
/// names one such type) or when the selected definitions' globs do not
/// compile (`default_selection_builds`, for a builder that holds the default
/// definitions); the matcher selects the builder's selected types.
#[verifier::external_body]
fn types_build(b: &TypesBuilder) -> (r: Result<Types, TypesBuildError>)
    ensures
        r matches Err(TypesBuildError::Unrecognized(n)) ==> selected_types(*b).contains(n@)
            && !type_names(*b).contains(n@),
        r is Ok ==> selected_types(*b).subset_of(type_names(*b)),
        selected_types(*b).subset_of(type_names(*b)) && types_defaults_only(*b) ==> (r is Ok
            <==> default_selection_builds(selection_counts(*b))),
        r matches Ok(t) ==> types_selection(t) == selected_types(*b),
{
    match b.build() {
        Ok(t) => Ok(t),
        Err(ignore::Error::UnrecognizedFileType(n)) => Err(TypesBuildError::Unrecognized(n)),
        Err(e) => Err(TypesBuildError::Other(e)),
    }
}

/// `OverrideBuilder::new`: matching is case-sensitive, unclosed character
/// classes are refused, and no glob is stored yet.
#[verifier::external_body]
fn override_builder_new(base: &PathBuf) -> (b: OverrideBuilder)
    ensures
        !override_case_insensitive(b),
        !override_allows_unclosed_class(b),
        override_stored(b) == Seq::<Seq<char>>::empty(),
{
    OverrideBuilder::new(base)
}

/// `OverrideBuilder::add`: whether the glob is accepted depends on the glob
/// and the builder's matching options, which it keeps. An accepted line is
/// stored as `override_entry` gives it (comments and blank lines are not
/// stored); a refused one leaves the stored globs as they were.
#[verifier::external_body]
fn override_add(b: &mut OverrideBuilder, glob: &str) -> (r: Result<(), ignore::Error>)
    ensures
        r is Ok <==> override_glob_ok(
            glob@,
            override_case_insensitive(*old(b)),
            override_allows_unclosed_class(*old(b)),
        ),
        override_case_insensitive(*final(b)) == override_case_insensitive(*old(b)),
        override_allows_unclosed_class(*final(b)) == override_allows_unclosed_class(*old(b)),
        r is Ok ==> override_stored(*final(b)) == with_entry(override_stored(*old(b)), glob@),
        r is Err ==> override_stored(*final(b)) == override_stored(*old(b)),
{
    match b.add(glob) {
        Ok(_) => Ok(()),
        Err(e) => Err(e),
    }
}

/// `OverrideBuilder::build`: succeeds exactly when the stored globs compile
/// into one glob set (`override_set_builds`), and the matcher holds those globs.
#[verifier::external_body]
fn override_build(b: &OverrideBuilder) -> (r: Result<Override, ignore::Error>)
    ensures
        r is Ok <==> override_set_builds(
            override_stored(*b),
            override_case_insensitive(*b),
            override_allows_unclosed_class(*b),
        ),
        r matches Ok(o) ==> override_globs(o) == override_stored(*b),
{
    b.build()
}

/// `WalkBuilder::new`: a builder whose only root is `path`, with no type or
/// override matcher installed (its other settings are not stated).
#[verifier::external_body]
fn walk_builder_new(path: &PathBuf) -> (b: WalkBuilder)
    ensures
        walk_roots(b) == seq![*path],
        walk_type_selection(b) is None,
        walk_override_globs(b) is None,
{
    WalkBuilder::new(path)
}

/// `WalkBuilder::add`: appends `path` to the roots; the other settings stay
/// as they were.
#[verifier::external_body]
fn walk_builder_add(b: &mut WalkBuilder, path: &PathBuf)
    ensures
        walk_roots(*final(b)) == walk_roots(*old(b)).push(*path),
        walk_skips_hidden(*final(b)) == walk_skips_hidden(*old(b)),
        walk_follows_links(*final(b)) == walk_follows_links(*old(b)),
        walk_type_selection(*final(b)) == walk_type_selection(*old(b)),
        walk_override_globs(*final(b)) == walk_override_globs(*old(b)),
{
    b.add(path);
}

/// `WalkBuilder::hidden`: hidden files are skipped exactly when `yes`; the
/// other settings stay as they were.
#[verifier::external_body]
fn walk_builder_hidden(b: &mut WalkBuilder, yes: bool)
    ensures
        walk_roots(*final(b)) == walk_roots(*old(b)),
        walk_skips_hidden(*final(b)) == yes,
        walk_follows_links(*final(b)) == walk_follows_links(*old(b)),
        walk_type_selection(*final(b)) == walk_type_selection(*old(b)),
        walk_override_globs(*final(b)) == walk_override_globs(*old(b)),
{
    b.hidden(yes);
}

/// `WalkBuilder::follow_links`: symbolic links are followed exactly when
/// `yes`; the other settings stay as they were.
#[verifier::external_body]
fn walk_builder_follow_links(b: &mut WalkBuilder, yes: bool)
    ensures
        walk_roots(*final(b)) == walk_roots(*old(b)),
        walk_skips_hidden(*final(b)) == walk_skips_hidden(*old(b)),
        walk_follows_links(*final(b)) == yes,
        walk_type_selection(*final(b)) == walk_type_selection(*old(b)),
        walk_override_globs(*final(b)) == walk_override_globs(*old(b)),
{
    b.follow_links(yes);
}

/// `WalkBuilder::types`: installs the file type matcher; the other settings
/// stay as they were.
#[verifier::external_body]
fn walk_builder_types(b: &mut WalkBuilder, types: Types)
    ensures
        walk_roots(*final(b)) == walk_roots(*old(b)),
        walk_skips_hidden(*final(b)) == walk_skips_hidden(*old(b)),
        walk_follows_links(*final(b)) == walk_follows_links(*old(b)),
        walk_type_selection(*final(b)) == Some(types_selection(types)),
        walk_override_globs(*final(b)) == walk_override_globs(*old(b)),
{
    b.types(types);
}

/// `WalkBuilder::overrides`: installs the override matcher; the other
/// settings stay as they were.
#[verifier::external_body]
fn walk_builder_overrides(b: &mut WalkBuilder, overrides: Override)
    ensures
        walk_roots(*final(b)) == walk_roots(*old(b)),
        walk_skips_hidden(*final(b)) == walk_skips_hidden(*old(b)),
        walk_follows_links(*final(b)) == walk_follows_links(*old(b)),
        walk_type_selection(*final(b)) == walk_type_selection(*old(b)),
        walk_override_globs(*final(b)) == Some(override_globs(overrides)),
{
    b.overrides(overrides);
}

// ── Configuration ────────────────────────────────────────────────────────────

/// The views of a list of strings.
pub open spec fn string_views(v: Seq<String>) -> Seq<Seq<char>> {
    v.map_values(|s: String| s@)
}

/// The set of the views of a list of strings.
pub open spec fn string_set(v: Seq<String>) -> Set<Seq<char>> {
    Set::new(|n: Seq<char>| exists|i: int| 0 <= i < v.len() && v[i]@ == n)
}

/// The first type name that is neither `all` nor in `known`.
pub open spec fn first_unknown_type(names: Seq<Seq<char>>, known: Set<Seq<char>>) -> Option<
    Seq<char>,
>
    decreases names.len(),
{
    if names.len() == 0 {
        None
    } else if names[0] != "all"@ && !known.contains(names[0]) {
        Some(names[0])
    } else {
        first_unknown_type(names.drop_first(), known)
    }
}

/// The first glob that an override builder made by `OverrideBuilder::new` refuses.
pub open spec fn first_rejected_glob(globs: Seq<Seq<char>>) -> Option<Seq<char>>
    decreases globs.len(),
{
    if globs.len() == 0 {
        None
    } else if !override_glob_ok(globs[0], false, false) {
        Some(globs[0])
    } else {
        first_rejected_glob(globs.drop_first())
    }
}

/// `l` without its trailing whitespace.
pub open spec fn trim_end_ws(l: Seq<char>) -> Seq<char>
    decreases l.len(),
{
    if l.len() > 0 && is_ws(l.last()) {
        trim_end_ws(l.drop_last())
    } else {
        l
    }
}

/// The glob that an override line is stored as: none for a comment (a line
/// starting with `#`) or a blank line; otherwise the line without its
/// trailing whitespace, or the line as given when it ends with an escaped
/// space (`\ `).
pub open spec fn override_entry(line: Seq<char>) -> Option<Seq<char>> {
    if line.len() > 0 && line[0] == '#' {
        None
    } else {
        let l = if line.len() >= 2 && line[line.len() - 2] == '\\' && line.last() == ' ' {
            line
        } else {
            trim_end_ws(line)
        };
        if l.len() == 0 {
            None
        } else {
            Some(l)
        }
    }
}

/// The stored globs after one more accepted line.
pub open spec fn with_entry(stored: Seq<Seq<char>>, line: Seq<char>) -> Seq<Seq<char>> {
    match override_entry(line) {
        Some(g) => stored.push(g),
        None => stored,
    }
}

/// The globs stored for a list of accepted lines, in order.
pub open spec fn override_entries(lines: Seq<Seq<char>>) -> Seq<Seq<char>>
    decreases lines.len(),
{
    if lines.len() == 0 {
        seq![]
    } else {
        with_entry(override_entries(lines.drop_last()), lines.last())
    }
}

/// A glob that is not a comment and has no trailing whitespace is stored as
/// given; a comment line is not stored.
pub proof fn lemma_override_entry_plain(line: Seq<char>)
    ensures
        line.len() > 0 && line[0] != '#' && !is_ws(line.last()) ==> override_entry(line) == Some(line),
        line.len() > 0 && line[0] == '#' ==> override_entry(line) is None,
{
    if line.len() > 0 && line[0] != '#' && !is_ws(line.last()) {
        assert(trim_end_ws(line) == line);
        assert(line.last() != ' ') by {
            assert(is_ws(' '));
        }
    }
}

/// Globs given one by one, none a comment and none with trailing whitespace,
/// are all stored, as given and in order.
pub proof fn lemma_plain_globs_stored(lines: Seq<Seq<char>>)
    requires
        forall|i: int|
            0 <= i < lines.len() ==> (#[trigger] lines[i]).len() > 0 && lines[i][0] != '#' && !is_ws(
                lines[i].last(),
            ),
    ensures
        override_entries(lines) == lines,
    decreases lines.len(),
{
    if lines.len() > 0 {
        let init = lines.drop_last();
        assert forall|i: int| 0 <= i < init.len() implies (#[trigger] init[i]).len() > 0 && init[i][0]
            != '#' && !is_ws(init[i].last()) by {
            assert(init[i] == lines[i]);
        }
        lemma_plain_globs_stored(init);
        lemma_override_entry_plain(lines.last());
        assert(lines.last() == lines[lines.len() - 1]);
        assert(init.push(lines.last()) == lines);
    }
}

/// The selections that a list of requested names makes among the `known`
/// types, each as often as it is made: a name once per request, every known
/// type once per `all`.
pub open spec fn selection_counts_of(names: Seq<Seq<char>>, known: Set<Seq<char>>) -> Multiset<
    Seq<char>,
>
    decreases names.len(),
{
    if names.len() == 0 {
        Multiset::empty()
    } else {
        let p = selection_counts_of(names.drop_last(), known);
        if names.last() == "all"@ {
            p.add(Multiset::from_set(known))
        } else {
            p.insert(names.last())
        }
    }
}

/// The crate's default file type names.
pub open spec fn default_types() -> Set<Seq<char>> {
    defaults_added(Set::<Seq<char>>::empty())
}

/// The types that a list of requested names selects among the `known` ones:
/// each requested name but `all`, and every known type when `all` is requested.
pub open spec fn selection_of(names: Seq<Seq<char>>, known: Set<Seq<char>>) -> Set<Seq<char>> {
    Set::new(
        |n: Seq<char>|
            (names.contains(n) && n != "all"@) || (names.contains("all"@) && known.contains(n)),
    )
}

/// Whether the requested type names set up a walk: none is requested, or
/// every one is `all` or a default type and their globs compile.
pub open spec fn types_accepted(names: Seq<Seq<char>>) -> bool {
    names.len() == 0 || (first_unknown_type(names, default_types()) is None
        && default_selection_builds(selection_counts_of(names, default_types())))
}

/// Whether the globs set up a walk: there are none, or every one is accepted
/// and together they compile.
pub open spec fn globs_accepted(globs: Seq<Seq<char>>) -> bool {
    globs.len() == 0 || (first_rejected_glob(globs) is None && override_set_builds(
        override_entries(globs),
        false,
        false,
    ))
}

/// The type selection that a walk installs for the requested names, or
/// `None` when none is requested.
pub open spec fn installed_types(names: Seq<Seq<char>>) -> Option<Set<Seq<char>>> {
    if names.len() == 0 {
        None
    } else {
        Some(selection_of(names, default_types()))
    }
}

/// The override globs that a walk installs for the globs given, or `None`
/// when none is given.
pub open spec fn installed_globs(globs: Seq<Seq<char>>) -> Option<Seq<Seq<char>>> {
    if globs.len() == 0 {
        None
    } else {
        Some(override_entries(globs))
    }
}

impl WalkConfig {
    /// The walk that a search asks for: its paths (the current directory when
    /// it names none), types and globs; hidden files skipped, links not followed.
    pub fn from_search_args(args: &SearchArgs) -> (cfg: Self)
        ensures
            args.paths@.len() == 0 ==> cfg.paths@ == seq![crate::std_types::path_of("."@)],
            args.paths@.len() > 0 ==> cfg.paths@ == args.paths@,
            cfg.types@ == args.types@,
            cfg.globs@ == args.globs@,
            !cfg.follow_symlinks,
            !cfg.hidden,
    {
        let paths = if args.paths.len() == 0 {
            let mut v = Vec::new();
            v.push(crate::std_types::path_from_str("."));
            v
        } else {
            args.paths.clone()
        };
        WalkConfig {
            paths,
            types: args.types.clone(),
            globs: args.globs.clone(),
            follow_symlinks: false,
            hidden: false,
        }
    }
}

// ── File types ───────────────────────────────────────────────────────────────

proof fn lemma_first_unknown_skip(names: Seq<Seq<char>>, known: Set<Seq<char>>, i: int)
    requires
        0 <= i < names.len(),
        names[i] == "all"@ || known.contains(names[i]),
    ensures
        first_unknown_type(names.skip(i), known) == first_unknown_type(names.skip(i + 1), known),
{
    assert(names.skip(i).drop_first() == names.skip(i + 1));
    assert(names.skip(i)[0] == names[i]);
}

/// Whether `name` is one of `known`.
fn contains_string(known: &Vec<String>, name: &String) -> (r: bool)
    ensures
        r == string_set(known@).contains(name@),
{
    let mut j: usize = 0;
    while j < known.len()
        invariant
            j <= known@.len(),
            forall|k: int| 0 <= k < j ==> known@[k]@ != name@,
        decreases known@.len() - j,
    {
        if known[j] == *name {
            return true;
        }
        j += 1;
    }
    false
}

/// Checks every requested type name against the `known` type names; the
/// name `all` stands for every type. Fails with the first unknown name.
pub fn check_type_names(names: &Vec<String>, known: &Vec<String>) -> (r: Result<(), String>)
    ensures
        r is Ok <==> first_unknown_type(string_views(names@), string_set(known@)) is None,
        r matches Err(n) ==> Some(n@) == first_unknown_type(
            string_views(names@),
            string_set(known@),
        ),
{
    let ghost views = string_views(names@);
    let ghost known_set = string_set(known@);
    let all = String::from_str("all");
    assert(views.skip(0) == views);
    let mut i: usize = 0;
    while i < names.len()
        invariant
            i <= names@.len(),
            views == string_views(names@),
            known_set == string_set(known@),
            all@ == "all"@,
            first_unknown_type(views, known_set) == first_unknown_type(views.skip(i as int), known_set),
        decreases names@.len() - i,
    {
        let name = &names[i];
        if *name != all && !contains_string(known, name) {
            assert(views.skip(i as int)[0] == name@);
            return Err(name.clone());
        }
        proof {
            lemma_first_unknown_skip(views, known_set, i as int);
        }
        i += 1;
    }
    assert(views.skip(i as int).len() == 0);
    Ok(())
}

/// Selecting one more requested name adds it to the selection, or every
/// known type when it is `all`.
proof fn lemma_selection_push(names: Seq<Seq<char>>, known: Set<Seq<char>>, a: Seq<char>)
    ensures
        selection_of(names.push(a), known) == if a == "all"@ {
            selection_of(names, known).union(known)
        } else {
            selection_of(names, known).insert(a)
        },
{
    broadcast use vstd::seq_lib::lemma_seq_contains_after_push;

    let lhs = selection_of(names.push(a), known);
    let rhs = if a == "all"@ {
        selection_of(names, known).union(known)
    } else {
        selection_of(names, known).insert(a)
    };
    assert forall|n: Seq<char>| lhs.contains(n) <==> rhs.contains(n) by {
        assert(names.push(a).contains(n) <==> a == n || names.contains(n));
        assert(names.push(a).contains("all"@) <==> a == "all"@ || names.contains("all"@));
    }
    assert(lhs == rhs);
}

/// The file type matcher for the requested type names, or `None` when no
/// type is requested. Fails with the first name that is neither `all` nor a
/// default type, and otherwise when the selected globs do not compile.
fn build_types(names: &Vec<String>) -> (r: Result<Option<Types>, WalkError>)
    ensures
        r matches Ok(None) <==> names@.len() == 0,
        r is Ok <==> types_accepted(string_views(names@)),
        r matches Ok(Some(t)) ==> types_selection(t) == selection_of(
            string_views(names@),
            default_types(),
        ),
        first_unknown_type(string_views(names@), default_types()) matches Some(n) ==> (r matches Err(
            WalkError::UnknownType(m),
        ) && m@ == n),
        r matches Err(WalkError::UnknownType(m)) ==> first_unknown_type(
            string_views(names@),
            default_types(),
        ) == Some(m@),
        r matches Err(WalkError::InvalidGlob { glob, .. }) ==> glob@ == Seq::<char>::empty(),
        !(r matches Err(WalkError::Io(_))),
{
    let ghost views = string_views(names@);
    if names.len() == 0 {
        return Ok(None);
    }
    let mut tb = types_builder_new();
    types_add_defaults(&mut tb);
    let known = type_definition_names(&tb);
    let ghost defined = type_names(tb);
    assert(defined == default_types());
    assert(string_set(known@) == defined);
    match check_type_names(names, &known) {
        Err(n) => {
            return Err(WalkError::UnknownType(n));
        },
        Ok(()) => {},
    }
    proof {
        lemma_no_unknown_all_known(views, defined);
        assert forall|k: int| 0 <= k < names@.len() implies names@[k]@ == "all"@ || defined.contains(
            #[trigger] names@[k]@,
        ) by {
            assert(views[k] == names@[k]@);
        }
        assert(selected_types(tb) == selection_of(views.take(0), defined));
        assert(selection_counts(tb) == selection_counts_of(views.take(0), defined));
    }
    let mut i: usize = 0;
    while i < names.len()
        invariant
            i <= names@.len(),
            views == string_views(names@),
            defined == default_types(),
            type_names(tb) == defined,
            types_defaults_only(tb),
            selection_counts(tb) == selection_counts_of(views.take(i as int), defined),
            selected_types(tb) == selection_of(views.take(i as int), defined),
            selected_types(tb).subset_of(defined),
            forall|k: int| 0 <= k < names@.len() ==> names@[k]@ == "all"@ || defined.contains(#[trigger] names@[k]@),
        decreases names@.len() - i,
    {
        types_select(&mut tb, names[i].as_str());
        proof {
            assert(views[i as int] == names@[i as int]@);
            assert(views.take(i + 1) == views.take(i as int).push(views[i as int]));
            assert(views.take(i + 1).drop_last() == views.take(i as int));
            lemma_selection_push(views.take(i as int), defined, views[i as int]);
        }
        i += 1;
    }
    assert(views.take(i as int) == views);
    match types_build(&tb) {
        Ok(t) => Ok(Some(t)),
        Err(TypesBuildError::Unrecognized(n)) => Err(WalkError::UnknownType(n)),
        Err(TypesBuildError::Other(e)) => Err(WalkError::InvalidGlob { glob: String::new(), source: e }),
    }
}

/// The name reported as unknown is one of the requested names, and not `all`.
pub proof fn lemma_first_unknown_member(names: Seq<Seq<char>>, known: Set<Seq<char>>)
    ensures
        first_unknown_type(names, known) matches Some(n) ==> names.contains(n) && n != "all"@,
    decreases names.len(),
{
    if names.len() > 0 {
        lemma_first_unknown_member(names.drop_first(), known);
        if let Some(n) = first_unknown_type(names.drop_first(), known) {
            let k = choose|k: int| 0 <= k < names.drop_first().len() && names.drop_first()[k] == n;
            assert(names[k + 1] == n);
        }
        assert(names[0] == names[0]);
    }
}

/// A list of type names is accepted exactly when every name is `all` or a
/// known type.
pub proof fn lemma_no_unknown_all_known(names: Seq<Seq<char>>, known: Set<Seq<char>>)
    ensures
        first_unknown_type(names, known) is None <==> forall|k: int|
            0 <= k < names.len() ==> names[k] == "all"@ || known.contains(#[trigger] names[k]),
    decreases names.len(),
{
    if names.len() > 0 {
        lemma_no_unknown_all_known(names.drop_first(), known);
        if first_unknown_type(names, known) is None {
            assert forall|k: int| 0 <= k < names.len() implies names[k] == "all"@ || known.contains(
                #[trigger] names[k],
            ) by {
                if k > 0 {
                    assert(names[k] == names.drop_first()[k - 1]);
                }
            }
        } else if forall|k: int| 0 <= k < names.len() ==> names[k] == "all"@ || known.contains(
            #[trigger] names[k],
        ) {
            assert(names[0] == "all"@ || known.contains(names[0]));
            assert forall|k: int| 0 <= k < names.drop_first().len() implies names.drop_first()[k]
                == "all"@ || known.contains(#[trigger] names.drop_first()[k]) by {
                assert(names.drop_first()[k] == names[k + 1]);
            }
        }
    }
}

// ── Globs ────────────────────────────────────────────────────────────────────

/// The override matcher for the globs, relative to `base`, or `None` when
/// there are no globs. Fails on the first glob that is refused, and
/// otherwise when the globs do not compile together.
fn build_overrides(base: &PathBuf, globs: &Vec<String>) -> (r: Result<Option<Override>, WalkError>)
    ensures
        r matches Ok(None) <==> globs@.len() == 0,
        r is Ok <==> globs_accepted(string_views(globs@)),
        r matches Ok(Some(o)) ==> override_globs(o) == override_entries(string_views(globs@)),
        first_rejected_glob(string_views(globs@)) matches Some(g) ==> (r matches Err(
            WalkError::InvalidGlob { glob, .. },
        ) && glob@ == g),
        first_rejected_glob(string_views(globs@)) is None ==> (r matches Err(
            WalkError::InvalidGlob { glob, .. },
        ) ==> glob@ == Seq::<char>::empty()),
        !(r matches Err(WalkError::UnknownType(_))),
        !(r matches Err(WalkError::Io(_))),
{
    if globs.len() == 0 {
        return Ok(None);
    }
    let ghost views = string_views(globs@);
    let mut builder = override_builder_new(base);
    assert(views.skip(0) == views);
    assert(override_stored(builder) == override_entries(views.take(0)));
    let mut i: usize = 0;
    while i < globs.len()
        invariant
            i <= globs@.len(),
            views == string_views(globs@),
            !override_case_insensitive(builder),
            !override_allows_unclosed_class(builder),
            override_stored(builder) == override_entries(views.take(i as int)),
            first_rejected_glob(views) == first_rejected_glob(views.skip(i as int)),
        decreases globs@.len() - i,
    {
        let glob = &globs[i];
        proof {
            assert(views.skip(i as int)[0] == glob@);
            assert(views.skip(i as int).drop_first() == views.skip(i + 1));
            assert(views.take(i + 1) == views.take(i as int).push(glob@));
            assert(views.take(i + 1).drop_last() == views.take(i as int));
        }
        match override_add(&mut builder, glob.as_str()) {
            Ok(()) => {},
            Err(source) => {
                return Err(WalkError::InvalidGlob { glob: glob.clone(), source });
            },
        }
        i += 1;
    }
    assert(views.skip(i as int).len() == 0);
    assert(views.take(i as int) == views);
    match override_build(&builder) {
        Ok(o) => Ok(Some(o)),
        Err(source) => Err(WalkError::InvalidGlob { glob: String::new(), source }),
    }
}

// ── The walk ─────────────────────────────────────────────────────────────────

/// What a walk set up for `config` holds: its roots in order, hidden files
/// skipped unless `config.hidden`, links followed when `config.follow_symlinks`,
/// and the requested type selection and globs installed.
pub open spec fn walk_set_up(config: WalkConfig, b: WalkBuilder) -> bool {
    &&& walk_roots(b) == config.paths@
    &&& walk_skips_hidden(b) == !config.hidden
    &&& walk_follows_links(b) == config.follow_symlinks
    &&& walk_type_selection(b) == installed_types(string_views(config.types@))
    &&& walk_override_globs(b) == installed_globs(string_views(config.globs@))
}

/// How setting up a walk for `config` ends, given what was returned: in
/// success exactly when the types and the globs are accepted, with the walk
/// that `config` describes; otherwise with the first failure, the types
/// checked before the globs: the first unknown type, a type glob set that
/// does not compile (no glob named), the first refused glob, or an override
/// set that does not compile (no glob named).
pub open spec fn walk_outcome(config: WalkConfig, r: Result<WalkBuilder, WalkError>) -> bool {
    let types = string_views(config.types@);
    let globs = string_views(config.globs@);
    &&& r is Ok <==> types_accepted(types) && globs_accepted(globs)
    &&& r matches Ok(b) ==> walk_set_up(config, b)
    &&& first_unknown_type(types, default_types()) matches Some(n) ==> (r matches Err(
        WalkError::UnknownType(m),
    ) && m@ == n)
    &&& r matches Err(WalkError::UnknownType(m)) ==> first_unknown_type(types, default_types())
        == Some(m@)
    &&& types_accepted(types) ==> (first_rejected_glob(globs) matches Some(g) ==> (r matches Err(
        WalkError::InvalidGlob { glob, .. },
    ) && glob@ == g))
    &&& r matches Err(WalkError::InvalidGlob { glob, .. }) ==> glob@ == Seq::<char>::empty() || (
    types_accepted(types) && first_rejected_glob(globs) == Some(glob@))
    &&& !(r matches Err(WalkError::Io(_)))
}

/// A walk set up for a configuration walks exactly its paths, in order;
/// skips hidden files unless asked to keep them; follows links only when
/// asked; installs a type matcher exactly when types are requested, which
/// selects every requested name other than `all`, every default type when
/// `all` is requested, and nothing else; and installs override globs exactly
/// when globs are given.
pub proof fn lemma_walk_set_up_settings(config: WalkConfig, b: WalkBuilder)
    requires
        walk_set_up(config, b),
    ensures
        walk_roots(b) == config.paths@,
        forall|i: int| 0 <= i < config.paths@.len() ==> walk_roots(b)[i] == #[trigger] config.paths@[i],
        walk_skips_hidden(b) == !config.hidden,
        walk_follows_links(b) == config.follow_symlinks,
        config.types@.len() == 0 <==> walk_type_selection(b) is None,
        forall|i: int|
            0 <= i < config.types@.len() && (#[trigger] config.types@[i])@ != "all"@ ==> (walk_type_selection(
                b,
            ) matches Some(sel) && sel.contains(config.types@[i]@)),
        forall|i: int|
            0 <= i < config.types@.len() && (#[trigger] config.types@[i])@ == "all"@ ==> (walk_type_selection(
                b,
            ) matches Some(sel) && default_types().subset_of(sel)),
        walk_type_selection(b) matches Some(sel) ==> forall|n: Seq<char>| #[trigger]
            sel.contains(n) ==> (n != "all"@ && string_set(config.types@).contains(n)) || (
            string_set(config.types@).contains("all"@) && default_types().contains(n)),
        config.globs@.len() == 0 <==> walk_override_globs(b) is None,
{
    let views = string_views(config.types@);
    assert forall|i: int| 0 <= i < config.types@.len() implies views[i] == (#[trigger] config.types@[i])@ by {}
    assert forall|n: Seq<char>| views.contains(n) <==> #[trigger] string_set(config.types@).contains(n) by {
        if views.contains(n) {
            let i = choose|i: int| 0 <= i < views.len() && views[i] == n;
            assert(config.types@[i]@ == n);
        }
        if string_set(config.types@).contains(n) {
            let i = choose|i: int| 0 <= i < config.types@.len() && config.types@[i]@ == n;
            assert(views[i] == n);
        }
    }
    assert forall|i: int| 0 <= i < config.types@.len() implies views.contains(
        (#[trigger] config.types@[i])@,
    ) by {
        assert(views[i] == config.types@[i]@);
    }
}

/// Sets up the walk that `config` describes (see `walk_outcome`); building
/// the walk and reading the files is left to the caller.
pub fn walk(config: &WalkConfig) -> (r: Result<WalkBuilder, WalkError>)
    requires
        config.paths@.len() > 0,
    ensures
        walk_outcome(*config, r),
        r matches Ok(b) ==> walk_roots(b) == config.paths@ && walk_skips_hidden(b) == !config.hidden
            && walk_follows_links(b) == config.follow_symlinks,
{
    build_walker(config)
}

/// The walk builder for `config` (see `walk_outcome`).
fn build_walker(config: &WalkConfig) -> (r: Result<WalkBuilder, WalkError>)
    requires
        config.paths@.len() > 0,
    ensures
        walk_outcome(*config, r),
        r matches Ok(b) ==> walk_roots(b) == config.paths@ && walk_skips_hidden(b) == !config.hidden
            && walk_follows_links(b) == config.follow_symlinks,
{
    let first = &config.paths[0];
    let mut builder = walk_builder_new(first);
    let mut k: usize = 1;
    while k < config.paths.len()
        invariant
            1 <= k <= config.paths@.len(),
            walk_roots(builder) == config.paths@.take(k as int),
            walk_type_selection(builder) is None,
            walk_override_globs(builder) is None,
        decreases config.paths@.len() - k,
    {
        walk_builder_add(&mut builder, &config.paths[k]);
        assert(config.paths@.take(k + 1) == config.paths@.take(k as int).push(config.paths@[k as int]));
        k += 1;
    }
    assert(config.paths@.take(k as int) == config.paths@);
    walk_builder_hidden(&mut builder, !config.hidden);
    walk_builder_follow_links(&mut builder, config.follow_symlinks);
    match build_types(&config.types) {
        Err(e) => return Err(e),
        Ok(Some(types)) => walk_builder_types(&mut builder, types),
        Ok(None) => {},
    }
    match build_overrides(first, &config.globs) {
        Err(e) => return Err(e),
        Ok(Some(overrides)) => walk_builder_overrides(&mut builder, overrides),
        Ok(None) => {},
    }
    Ok(builder)
}

/// Whether the walk yields an entry it met: a regular file whose probed
/// leading bytes hold no NUL byte. `probe` is `None` when the file could not
/// be read (the caller reports that), and the entry is then skipped.
pub fn keep_entry(is_file: bool, probe: Option<&[u8]>) -> (r: bool)
    ensures
        r == (is_file && (probe matches Some(p) && !p@.contains(0u8))),
{
    match probe {
        Some(p) => is_file && !is_binary_prefix(p),
        None => false,
    }
}

/// Whether the probed leading bytes of a file mark it as binary: they hold a NUL byte.
pub fn is_binary_prefix(prefix: &[u8]) -> (r: bool)
    ensures
        r == prefix@.contains(0u8),
{
    let mut i: usize = 0;
    while i < prefix.len()
        invariant
            i <= prefix@.len(),
            forall|k: int| 0 <= k < i ==> prefix@[k] != 0u8,
        decreases prefix@.len() - i,
    {
        if prefix[i] == 0 {
            assert(prefix@[i as int] == 0u8);
            return true;
        }
        i += 1;
    }
    false
}

} // verus!
