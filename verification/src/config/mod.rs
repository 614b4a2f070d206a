//! Finding the config file, and everything read out of it.

pub mod document;
pub mod format;
pub mod toml;
pub mod yaml_emit;

use vstd::prelude::*;
use crate::config::document::{document_of, reading_of, unparsed, unwritten, ConfigDocument};
use crate::config::toml::toml_refusal;
use crate::config::format::{
    detected, final_newline, final_newline_spec, format_of, ConfigFormat, Indent,
};
use crate::error::VendorError;
use crate::fsx::{anchor, anchored, appended_all, join_normalized, normalized, parent, parent_of};
use crate::model::{
    dependency_in, raw_in, with_defaults, DefaultOptions, RawDependency, RawView, VendorConfig,
};
use crate::template::{a_placeholder_is_filled, replace_vendor_folder};
use crate::text;
use crate::value::{
    keys_distinct, lemma_insert_new, lemma_json_view, table_view, view_map, write_number, Json,
    JsonView, OrderedMap,
};

verus! {

/// The file names searched for, in priority order.
pub open spec fn config_names() -> Seq<Seq<char>> {
    seq![
        "vendor.toml"@,
        "vendor.yml"@,
        "vendor.yaml"@,
        "vendor.json"@,
        "package.json"@,
    ]
}

/// The file names searched for, in priority order.
pub fn config_file_names() -> (r: Vec<&'static str>)
    ensures
        crate::fsx::strs(r@) == config_names(),
{
    let r = vec!["vendor.toml", "vendor.yml", "vendor.yaml", "vendor.json", "package.json"];
    assert(crate::fsx::strs(r@) =~= config_names());
    r
}

/// Everything needed to write the config back exactly as it was formatted.
#[derive(Debug)]
pub struct ConfigFileSettings {
    /// What it is written in.
    pub format: ConfigFormat,
    /// Where it is.
    pub path: String,
    /// How it is indented.
    pub indent: Indent,
    /// The newline it ends with, if it ends with one.
    pub final_newline: String,
}

/// The config file: how to write it, and its editable contents.
#[derive(Debug)]
pub struct ConfigFile {
    /// How to write it.
    pub settings: ConfigFileSettings,
    /// What it holds.
    pub document: ConfigDocument,
}

impl ConfigFile {
    /// Where the config file is, for display.
    pub fn display_path(&self) -> (r: &str)
        ensures
            r@ == self.settings.path@,
    {
        self.settings.path.as_str()
    }

    /// Renders the document, with the file's own trailing newline behind it. What is written is read
    /// back as it was: JSON without numbers as a whole, TOML but for the order of its keys and for
    /// tables with nothing in them.
    pub fn contents(&self) -> (r: Result<String, VendorError>)
        ensures
            match (self.document, self.settings.format) {
                (ConfigDocument::Toml(document), _) => r matches Ok(out) && out@
                    == crate::template::trim_end_spec(document.printed(), "\n"@) + "\n"@
                    + self.settings.final_newline@ && (toml::settled(self.document@.tree(), 40)
                    && newline(self.settings.final_newline@) ==> toml::reads_as(
                    out@,
                    self.document@.tree(),
                )),
                (ConfigDocument::Tree(_), ConfigFormat::Json) => (match crate::codec::json_writing(
                    self.document@.tree(),
                    self.settings.indent@,
                ) {
                    Ok(shown) => r matches Ok(out) && out@ == shown + self.settings.final_newline@,
                    Err(said) => r matches Err(e) && unwritten(e, "config"@, said),
                }) && (crate::codec::wordy(self.document@.tree(), 100) && crate::codec::blank(
                    self.settings.indent@,
                ) && (self.settings.final_newline@.len() == 0 || self.settings.final_newline@
                    == "\n"@) ==> (r matches Ok(out) && crate::codec::json_document(out@) == Some(
                    self.document@.tree(),
                ))),
                (ConfigDocument::Tree(_), _) => r matches Ok(out) && out@
                    == yaml_emit::document_text(
                    self.document@.tree(),
                    if self.settings.indent@.len() > 1 {
                        self.settings.indent@.len() as int
                    } else {
                        1
                    },
                ) + self.settings.final_newline@,
            },
    {
        match self.document.render(self.settings.format, &self.settings.indent) {
            Ok(body) => {
                let out = body.concat(self.settings.final_newline.as_str());
                assert(self.settings.final_newline@.len() == 0 ==> out@ =~= body@);
                Ok(out)
            },
            Err(e) => Err(e),
        }
    }
}

/// What may end a file: a newline of either kind, or none.
pub open spec fn newline(s: Seq<char>) -> bool {
    s.len() == 0 || s == "\n"@ || s == "\r\n"@
}

/// A number that is zero: no digit but zeros before its exponent.
pub open spec fn zero_text(s: Seq<char>) -> bool {
    let end = text::skip_while(s, |c: char| c != 'e' && c != 'E', 0);
    forall|i: int| 0 <= i < end ==> !('1' <= #[trigger] s[i] && s[i] <= '9')
}

/// A value that counts as nothing: null, false, zero, or empty text.
pub open spec fn falsy(value: JsonView) -> bool {
    match value {
        JsonView::Null => true,
        JsonView::Bool(b) => !b,
        JsonView::Number(s) => zero_text(s),
        JsonView::Text(s) => s.len() == 0,
        _ => false,
    }
}

/// Whether a number is zero.
fn is_zero(s: &str) -> (r: bool)
    ensures
        r == zero_text(s@),
{
    let cs = text::chars_of(s);
    let ghost mantissa = |c: char| c != 'e' && c != 'E';
    let mut end: usize = 0;
    let mut zero = true;
    while end < cs.len() && cs[end] != 'e' && cs[end] != 'E'
        invariant
            end <= cs@.len(),
            cs@ == s@,
            mantissa == |c: char| c != 'e' && c != 'E',
            text::skip_while(s@, mantissa, 0) == text::skip_while(s@, mantissa, end as int),
            zero == (forall|i: int| 0 <= i < end ==> !('1' <= #[trigger] s@[i] && s@[i] <= '9')),
        decreases cs@.len() - end,
    {
        if '1' <= cs[end] && cs[end] <= '9' {
            assert('1' <= s@[end as int] && s@[end as int] <= '9');
            zero = false;
        }
        end += 1;
    }
    zero
}

/// Whether a value counts as nothing.
pub fn is_falsy(value: &Json) -> (r: bool)
    ensures
        r == falsy(value@),
{
    proof {
        lemma_json_view(*value);
    }
    match value {
        Json::Null => true,
        Json::Bool(b) => !*b,
        Json::Number(n) => is_zero(write_number(n).as_str()),
        Json::Text(s) => s.as_str().is_empty(),
        _ => false,
    }
}

/// The folder that `vendorConfig` names, the default where it is absent or counts as nothing;
/// `None` where a key is of the wrong type.
pub open spec fn folder_in(document: JsonView) -> Option<Seq<char>> {
    match document.get("vendorConfig"@) {
        None => Some("./vendor"@),
        Some(block) => if falsy(block) {
            Some("./vendor"@)
        } else if !(block is Table) {
            None
        } else {
            match block.get("vendorFolder"@) {
                None => Some("./vendor"@),
                Some(folder) => if falsy(folder) {
                    Some("./vendor"@)
                } else {
                    match folder {
                        JsonView::Text(s) => Some(s),
                        _ => None,
                    }
                },
            }
        },
    }
}

/// Reads `vendorConfig`, falling back to the default folder when it is absent or counts as nothing.
pub fn read_vendor_config(document: &Json, path: &str) -> (r: Result<VendorConfig, VendorError>)
    ensures
        match r {
            Ok(config) => folder_in(document@) == Some(config.vendor_folder@),
            Err(e) => folder_in(document@) is None && (e matches VendorError::InvalidConfigKey(p)
                && p@ == path@),
        },
{
    let block = match document.get("vendorConfig") {
        Some(block) => block,
        None => {
            return Ok(VendorConfig::default());
        },
    };
    if is_falsy(block) {
        return Ok(VendorConfig::default());
    }
    if block.as_table().is_none() {
        return Err(VendorError::InvalidConfigKey(path.to_owned()));
    }
    match block.get("vendorFolder") {
        None => Ok(VendorConfig::default()),
        Some(folder) => if is_falsy(folder) {
            Ok(VendorConfig::default())
        } else {
            match folder.as_text() {
                Some(s) => Ok(VendorConfig { vendor_folder: s.to_owned() }),
                None => Err(VendorError::InvalidConfigKey(path.to_owned())),
            }
        },
    }
}

/// The dependencies a document lists, none where the key is absent or counts as nothing; `None`
/// where something is of the wrong type.
pub open spec fn dependencies_in(document: JsonView) -> Option<Seq<(Seq<char>, RawView)>> {
    match document.get("vendorDependencies"@) {
        None => Some(Seq::empty()),
        Some(value) => if falsy(value) {
            Some(Seq::empty())
        } else {
            match value {
                JsonView::Table(map) => if forall|i: int|
                    0 <= i < map.len() ==> dependency_in((#[trigger] map[i]).1) is Some {
                    Some(Seq::new(map.len(), |i: int| (map[i].0, dependency_in(map[i].1)->0)))
                } else {
                    None
                },
                _ => None,
            }
        },
    }
}

/// Reads `vendorDependencies`, tolerating a key that is missing or counts as nothing.
pub fn read_dependencies(document: &Json, path: &str) -> (r: Result<
    OrderedMap<RawDependency>,
    VendorError,
>)
    ensures
        match r {
            Ok(dependencies) => dependencies_in(document@) == Some(view_map(dependencies@)),
            Err(e) => dependencies_in(document@) is None && (
            e matches VendorError::InvalidDependenciesKey(p) && p@ == path@),
        },
{
    let mut out: OrderedMap<RawDependency> = OrderedMap::new();
    assert(view_map(out@) =~= Seq::empty());
    let value = match document.get("vendorDependencies") {
        Some(value) => value,
        None => {
            return Ok(out);
        },
    };
    if is_falsy(value) {
        return Ok(out);
    }
    let map = match value.as_table() {
        Some(map) => map,
        None => {
            return Err(VendorError::InvalidDependenciesKey(path.to_owned()));
        },
    };
    let ghost views = table_view(map@);
    let n: usize = map.len();
    let mut i: usize = 0;
    while i < n
        invariant
            i <= n == map@.len(),
            keys_distinct(map@),
            document@.get("vendorDependencies"@) == Some(JsonView::Table(views)),
            !falsy(JsonView::Table(views)),
            views == table_view(map@),
            out@.len() == i,
            forall|j: int|
                0 <= j < i ==> out@[j].0 == (#[trigger] views[j]).0 && dependency_in(views[j].1)
                    == Some(out@[j].1@),
        decreases n - i,
    {
        let key = map.key_at(i);
        let item = map.value_at(i);
        assert(views[i as int] == (key@, item@));
        let raw = match RawDependency::read(item) {
            Some(raw) => raw,
            None => {
                assert(dependency_in(views[i as int].1) is None);
                return Err(VendorError::InvalidDependenciesKey(path.to_owned()));
            },
        };
        let ghost before = out@;
        proof {
            assert forall|j: int| 0 <= j < before.len() implies (#[trigger] before[j]).0 != key@ by {
                assert(views[j].0 == map@[j].0);
                assert(map@[j].0 != map@[i as int].0);
            }
            lemma_insert_new(before, key@, raw);
        }
        out.insert(key.to_owned(), raw);
        i += 1;
    }
    assert(view_map(out@) =~= Seq::new(
        views.len(),
        |i: int| (views[i].0, dependency_in(views[i].1)->0),
    ));
    Ok(out)
}

/// A dependency of which nothing is said.
pub open spec fn nothing_said() -> RawView {
    RawView {
        version: None,
        repository: None,
        files: None,
        hash_version_file: None,
        name: None,
        vendor_folder: None,
        release_regex: None,
        locked: None,
    }
}

/// The options every dependency shares: `defaultVendorOptions`, else `default`.
pub open spec fn defaults_in(document: JsonView) -> RawView {
    let block = match document.get("defaultVendorOptions"@) {
        Some(block) => Some(block),
        None => document.get("default"@),
    };
    match block {
        Some(JsonView::Table(map)) => raw_in(JsonView::Table(map)),
        _ => nothing_said(),
    }
}

/// Reads `defaultVendorOptions`, then `default`.
pub fn read_defaults(document: &Json) -> (r: DefaultOptions)
    ensures
        r@ == defaults_in(document@),
{
    let block = match document.get("defaultVendorOptions") {
        Some(block) => Some(block),
        None => document.get("default"),
    };
    match block {
        Some(block) => if block.as_table().is_some() {
            RawDependency::from_json(block)
        } else {
            RawDependency::empty()
        },
        None => RawDependency::empty(),
    }
}

/// The folder a dependency's files land in: its own, with `{vendorFolder}` expanded, or the global
/// one with its name behind it.
pub open spec fn dependency_folder_spec(
    windows: bool,
    global: Seq<char>,
    config_path: Seq<char>,
    own: Option<Seq<char>>,
    name: Seq<char>,
) -> Seq<char> {
    let base = parent_of(windows, config_path);
    match own {
        Some(folder) => anchored(
            windows,
            base,
            text::replace_first_spec(folder, "{vendorFolder}"@, global),
        ),
        None => normalized(
            windows,
            crate::fsx::appended(windows, anchored(windows, base, global), name),
        ),
    }
}

/// The folder a dependency's files land in.
///
/// A dependency's own `vendorFolder` (with `{vendorFolder}` expanded) is used verbatim; otherwise
/// the global folder gets the dependency name appended.
pub fn dependency_folder(
    windows: bool,
    config: &VendorConfig,
    config_path: &str,
    vendor_folder: Option<&str>,
    name: &str,
) -> (r: String)
    ensures
        r@ == dependency_folder_spec(
            windows,
            config.vendor_folder@,
            config_path@,
            text::str_of(vendor_folder),
            name@,
        ),
{
    let base = parent(windows, config_path);
    match vendor_folder {
        Some(folder) => anchor(
            windows,
            base.as_str(),
            replace_vendor_folder(folder, config.vendor_folder.as_str()).as_str(),
        ),
        None => {
            let global = anchor(windows, base.as_str(), config.vendor_folder.as_str());
            let parts = [name];
            assert(crate::fsx::strs(parts@) =~= seq![name@]);
            reveal_with_fuel(appended_all, 2);
            join_normalized(windows, global.as_str(), parts.as_slice())
        },
    }
}

/// A text that is there and not empty.
pub open spec fn given(s: Option<Seq<char>>) -> bool {
    s is Some && s->0.len() > 0
}

/// The first of the candidates that is given, else the working folder.
pub open spec fn start_of(
    option: Option<Seq<char>>,
    vendor_config: Option<Seq<char>>,
    init_cwd: Option<Seq<char>>,
    pwd: Option<Seq<char>>,
    cwd: Seq<char>,
) -> Seq<char> {
    if given(option) {
        option->0
    } else if given(vendor_config) {
        vendor_config->0
    } else if given(init_cwd) {
        init_cwd->0
    } else if given(pwd) {
        pwd->0
    } else {
        cwd
    }
}

/// Whether a text is there and not empty.
fn is_given(s: Option<&str>) -> (r: bool)
    ensures
        r == given(text::str_of(s)),
{
    match s {
        Some(s) => !s.is_empty(),
        None => false,
    }
}

/// The folder or file the config search starts from.
///
/// `-c` beats `VENDOR_CONFIG` beats `INIT_CWD` beats `PWD` beats the process's working folder, and
/// an empty value falls through to the next candidate.
pub fn resolve_start_path(
    option: Option<&str>,
    vendor_config: Option<&str>,
    init_cwd: Option<&str>,
    pwd: Option<&str>,
    cwd: &str,
) -> (r: String)
    ensures
        r@ == start_of(
            text::str_of(option),
            text::str_of(vendor_config),
            text::str_of(init_cwd),
            text::str_of(pwd),
            cwd@,
        ),
{
    if is_given(option) {
        option.unwrap().to_owned()
    } else if is_given(vendor_config) {
        vendor_config.unwrap().to_owned()
    } else if is_given(init_cwd) {
        init_cwd.unwrap().to_owned()
    } else if is_given(pwd) {
        pwd.unwrap().to_owned()
    } else {
        cwd.to_owned()
    }
}

/// Where the search goes on when it found nothing: the place `DEFAULT_VENDOR_CONFIG` names, unless
/// `-c` asked for a place of its own.
pub fn fallback_start<'a>(option: Option<&str>, default_config: Option<&'a str>) -> (r: Option<
    &'a str,
>)
    ensures
        r == if !given(text::str_of(option)) && given(text::str_of(default_config)) {
            default_config
        } else {
            None
        },
{
    if !is_given(option) && is_given(default_config) {
        default_config
    } else {
        None
    }
}

/// A path that ends in the name of a config file.
pub open spec fn names_config(path: Seq<char>) -> bool {
    exists|i: int| 0 <= i < config_names().len() && (#[trigger] config_names()[i]).is_suffix_of(path)
}

/// The files that hold the config of a folder, if they are there: the first that can be read is it.
pub open spec fn folder_candidates(windows: bool, folder: Seq<char>, n: int) -> Seq<Seq<char>>
    decreases n,
{
    if n <= 0 {
        Seq::empty()
    } else {
        folder_candidates(windows, folder, n - 1).push(
            normalized(windows, crate::fsx::appended(windows, folder, config_names()[n - 1])),
        )
    }
}

/// The files to try, in order: the path itself where it is named like a config file, then those of
/// the folder.
pub open spec fn candidates_spec(windows: bool, path: Seq<char>) -> Seq<Seq<char>> {
    let own = if names_config(path) {
        seq![path]
    } else {
        Seq::empty()
    };
    own + folder_candidates(windows, path, config_names().len() as int)
}

/// The files to try for a config, in order; the first that can be read is it.
pub fn config_candidates(windows: bool, folder_or_file: &str) -> (r: Vec<String>)
    ensures
        text::texts(r@) == candidates_spec(windows, folder_or_file@),
{
    let names = config_file_names();
    let ghost all = config_names();
    let mut own = false;
    let mut i: usize = 0;
    while i < names.len()
        invariant
            i <= names@.len(),
            crate::fsx::strs(names@) == all,
            all == config_names(),
            own == exists|j: int| 0 <= j < i && (#[trigger] all[j]).is_suffix_of(folder_or_file@),
        decreases names@.len() - i,
    {
        assert(names@[i as int]@ == all[i as int]);
        if text::ends_with(folder_or_file, names[i]) {
            assert(all[i as int].is_suffix_of(folder_or_file@));
            own = true;
        }
        i += 1;
    }
    let mut out: Vec<String> = Vec::new();
    if own {
        out.push(folder_or_file.to_owned());
    }
    let ghost first = text::texts(out@);
    assert(first =~= if names_config(folder_or_file@) {
        seq![folder_or_file@]
    } else {
        Seq::empty()
    });
    let mut i: usize = 0;
    assert(text::texts(out@) =~= first + folder_candidates(windows, folder_or_file@, 0));
    while i < names.len()
        invariant
            i <= names@.len(),
            crate::fsx::strs(names@) == all,
            all == config_names(),
            text::texts(out@) == first + folder_candidates(windows, folder_or_file@, i as int),
        decreases names@.len() - i,
    {
        let ghost before = out@;
        assert(names@[i as int]@ == all[i as int]);
        let parts = [names[i]];
        assert(crate::fsx::strs(parts@) =~= seq![all[i as int]]);
        reveal_with_fuel(appended_all, 2);
        out.push(join_normalized(windows, folder_or_file, parts.as_slice()));
        i += 1;
        assert(text::texts(out@) =~= first + folder_candidates(
            windows,
            folder_or_file@,
            i as int,
        )) by {
            assert(text::texts(out@) =~= text::texts(before).push(
                normalized(windows, crate::fsx::appended(windows, folder_or_file@, all[i - 1])),
            ));
        }
    }
    out
}

/// The loaded project: config block, dependencies with defaults applied, and the raw file.
#[derive(Debug)]
pub struct Workspace {
    /// Whether the paths are those of Windows.
    pub windows: bool,
    /// The global block.
    pub config: VendorConfig,
    /// The dependencies, with the defaults applied.
    pub dependencies: OrderedMap<RawDependency>,
    /// The options every dependency shares.
    pub defaults: DefaultOptions,
    /// The file itself.
    pub file: ConfigFile,
}

/// Dependencies with the defaults applied to each.
pub open spec fn defaulted(map: Seq<(Seq<char>, RawView)>, defaults: RawView) -> Seq<
    (Seq<char>, RawView),
> {
    Seq::new(map.len(), |i: int| (map[i].0, with_defaults(map[i].1, defaults)))
}

/// Applies the defaults to every dependency.
fn apply_to_all(map: &OrderedMap<RawDependency>, defaults: &DefaultOptions) -> (r: OrderedMap<
    RawDependency,
>)
    ensures
        view_map(r@) == defaulted(view_map(map@), defaults@),
{
    let n: usize = map.len();
    let mut out: OrderedMap<RawDependency> = OrderedMap::new();
    let mut i: usize = 0;
    while i < n
        invariant
            i <= n == map@.len(),
            keys_distinct(map@),
            out@.len() == i,
            forall|j: int|
                0 <= j < i ==> (#[trigger] out@[j]).0 == map@[j].0 && out@[j].1@ == with_defaults(
                    map@[j].1@,
                    defaults@,
                ),
        decreases n - i,
    {
        let key = map.key_at(i);
        let mut raw = map.value_at(i).copy();
        raw.apply_defaults(defaults);
        let ghost before = out@;
        proof {
            assert forall|j: int| 0 <= j < before.len() implies (#[trigger] before[j]).0 != key@ by {
                assert(map@[j].0 != map@[i as int].0);
            }
            lemma_insert_new(before, key@, raw);
        }
        out.insert(key.to_owned(), raw);
        i += 1;
    }
    assert(view_map(out@) =~= defaulted(view_map(map@), defaults@));
    out
}

/// How reading a config goes.
pub ghost enum LoadView {
    /// The text is not a document in the format, and this is said of it.
    Unparsed(Seq<char>),
    /// `vendorConfig` is of the wrong type.
    BadConfig,
    /// `vendorDependencies` is of the wrong type.
    BadDependencies,
    /// It is read.
    Loaded { folder: Seq<char>, dependencies: Seq<(Seq<char>, RawView)>, defaults: RawView },
}

/// How reading a config goes.
pub open spec fn load_spec(path: Seq<char>, text: Seq<char>) -> LoadView {
    let format = format_of(path);
    match reading_of(format, text) {
        Err(said) => LoadView::Unparsed(said),
        Ok(document) => if format is Toml && toml_refusal(text) is Some {
            LoadView::Unparsed(toml_refusal(text)->0)
        } else if folder_in(document) is None {
            LoadView::BadConfig
        } else {
            match dependencies_in(document) {
                None => LoadView::BadDependencies,
                Some(dependencies) => LoadView::Loaded {
                    folder: folder_in(document)->0,
                    dependencies: defaulted(dependencies, defaults_in(document)),
                    defaults: defaults_in(document),
                },
            }
        },
    }
}

impl Workspace {
    /// Reads a config from its text.
    pub fn from_text(windows: bool, path: &str, text: &str) -> (r: Result<Self, VendorError>)
        ensures
            match load_spec(path@, text@) {
                LoadView::Unparsed(said) => r matches Err(e) && unparsed(e, path@, said),
                LoadView::BadConfig => r matches Err(VendorError::InvalidConfigKey(p)) && p@
                    == path@,
                LoadView::BadDependencies => r matches Err(VendorError::InvalidDependenciesKey(p))
                    && p@ == path@,
                LoadView::Loaded { folder, dependencies, defaults } => {
                    &&& r matches Ok(workspace)
                    &&& workspace.windows == windows
                    &&& workspace.config.vendor_folder@ == folder
                    &&& view_map(workspace.dependencies@) == dependencies
                    &&& workspace.defaults@ == defaults
                    &&& workspace.file.settings.format == format_of(path@)
                    &&& workspace.file.settings.path@ == path@
                    &&& workspace.file.settings.indent@ == detected(text@)
                    &&& workspace.file.settings.final_newline@ == final_newline_spec(text@)
                    &&& (workspace.file.document is Toml) == (format_of(path@) is Toml)
                    &&& workspace.file.document@.tree() == document_of(format_of(path@), text@)->0
                },
            },
    {
        let format = ConfigFormat::from_path(path);
        let canonical = match format.parse(text, path) {
            Ok(canonical) => canonical,
            Err(e) => {
                return Err(e);
            },
        };
        let document = match ConfigDocument::parse(format, text, path) {
            Ok(document) => document,
            Err(e) => {
                return Err(e);
            },
        };
        let config = match read_vendor_config(&canonical, path) {
            Ok(config) => config,
            Err(e) => {
                return Err(e);
            },
        };
        let defaults = read_defaults(&canonical);
        let dependencies = match read_dependencies(&canonical, path) {
            Ok(dependencies) => dependencies,
            Err(e) => {
                return Err(e);
            },
        };
        let dependencies = apply_to_all(&dependencies, &defaults);
        Ok(
            Workspace {
                windows,
                config,
                dependencies,
                defaults,
                file: ConfigFile {
                    settings: ConfigFileSettings {
                        format,
                        path: path.to_owned(),
                        indent: Indent::detect(text),
                        final_newline: final_newline(text),
                    },
                    document,
                },
            },
        )
    }

    /// The folder a dependency's files are written to.
    pub fn dependency_folder(&self, vendor_folder: Option<&str>, name: &str) -> (r: String)
        ensures
            r@ == dependency_folder_spec(
                self.windows,
                self.config.vendor_folder@,
                self.file.settings.path@,
                text::str_of(vendor_folder),
                name@,
            ),
    {
        dependency_folder(
            self.windows,
            &self.config,
            self.file.settings.path.as_str(),
            vendor_folder,
            name,
        )
    }
}

/// Where the search starts: what the command line says comes before `VENDOR_CONFIG`, that before
/// `INIT_CWD`, that before `PWD`, and the working folder comes last. An empty text says nothing.
pub proof fn the_command_line_says_where_to_start(
    option: Option<Seq<char>>,
    vendor_config: Option<Seq<char>>,
    init_cwd: Option<Seq<char>>,
    pwd: Option<Seq<char>>,
    cwd: Seq<char>,
    place: Seq<char>,
)
    requires
        place.len() > 0,
    ensures
        start_of(Some(place), vendor_config, init_cwd, pwd, cwd) == place,
        start_of(None, Some(place), init_cwd, pwd, cwd) == place,
        start_of(None, None, Some(place), pwd, cwd) == place,
        start_of(None, None, None, Some(place), cwd) == place,
        start_of(None, None, None, None, cwd) == cwd,
        start_of(Some(Seq::empty()), vendor_config, init_cwd, pwd, cwd) == start_of(
            None,
            vendor_config,
            init_cwd,
            pwd,
            cwd,
        ),
        start_of(option, Some(Seq::empty()), init_cwd, pwd, cwd) == start_of(
            option,
            None,
            init_cwd,
            pwd,
            cwd,
        ),
        start_of(option, vendor_config, Some(Seq::empty()), pwd, cwd) == start_of(
            option,
            vendor_config,
            None,
            pwd,
            cwd,
        ),
        start_of(option, vendor_config, init_cwd, Some(Seq::empty()), cwd) == start_of(
            option,
            vendor_config,
            init_cwd,
            None,
            cwd,
        ),
{
}

/// The files that are tried for a config: a path that ends in the name of one is tried itself, and
/// first. Then those of the folder are tried: TOML before YAML before JSON, the tool's own file
/// before the one it shares.
pub proof fn the_candidates_have_an_order(windows: bool, path: Seq<char>)
    ensures
        ({
            let tried = candidates_spec(windows, path);
            let n = tried.len() as int;
            let at = |name: Seq<char>| normalized(windows, crate::fsx::appended(windows, path, name));
            &&& n == 5 || (n == 6 && tried[0] == path)
            &&& "vendor.toml"@.is_suffix_of(path) || "vendor.yml"@.is_suffix_of(path)
                || "vendor.yaml"@.is_suffix_of(path) || "vendor.json"@.is_suffix_of(path)
                || "package.json"@.is_suffix_of(path) <==> n == 6
            &&& tried[n - 5] == at("vendor.toml"@)
            &&& tried[n - 4] == at("vendor.yml"@)
            &&& tried[n - 3] == at("vendor.yaml"@)
            &&& tried[n - 2] == at("vendor.json"@)
            &&& tried[n - 1] == at("package.json"@)
        }),
{
    let names = config_names();
    reveal_with_fuel(folder_candidates, 6);
    assert(names.len() == 5);
    assert(names[0] == "vendor.toml"@ && names[1] == "vendor.yml"@ && names[2] == "vendor.yaml"@
        && names[3] == "vendor.json"@ && names[4] == "package.json"@);
}

/// What counts as nothing: null, false, an empty text, and no list or table, however empty.
pub proof fn what_counts_as_nothing(value: JsonView)
    ensures
        value is Null ==> falsy(value),
        value matches JsonView::Bool(b) ==> falsy(value) == !b,
        value matches JsonView::Text(s) ==> (falsy(value) <==> s.len() == 0),
        value is List || value is Table ==> !falsy(value),
        value matches JsonView::Number(s) ==> (forall|i: int|
            0 <= i < s.len() ==> #[trigger] s[i] == '0' || s[i] == '.' || s[i] == '-') ==> falsy(value),
        value matches JsonView::Number(s) ==> s.len() > 0 && '1' <= s[0] && s[0] <= '9' ==> !falsy(
            value,
        ),
{
    if let JsonView::Number(s) = value {
        let mantissa = |c: char| c != 'e' && c != 'E';
        text::lemma_skip_while(s, mantissa, 0);
        if s.len() > 0 && '1' <= s[0] && s[0] <= '9' {
            assert(mantissa(s[0]));
            assert(text::skip_while(s, mantissa, 0) > 0);
        }
    }
}

/// The folder is the one `vendorConfig` names, and `./vendor` where that or the block is absent or
/// counts as nothing.
pub proof fn the_folder_is_the_one_named(document: JsonView)
    ensures
        document.get("vendorConfig"@) is None ==> folder_in(document) == Some("./vendor"@),
        document.get("vendorConfig"@) matches Some(block) ==> {
            &&& falsy(block) ==> folder_in(document) == Some("./vendor"@)
            &&& !falsy(block) && !(block is Table) ==> folder_in(document) is None
            &&& block is Table && block.get("vendorFolder"@) is None ==> folder_in(document) == Some(
                "./vendor"@,
            )
            &&& block is Table ==> (block.get("vendorFolder"@) matches Some(JsonView::Text(s))
                ==> folder_in(document) == Some(
                if s.len() > 0 {
                    s
                } else {
                    "./vendor"@
                },
            ))
            &&& block is Table && block.get("vendorFolder"@) is Some && !falsy(
                block.get("vendorFolder"@)->0,
            ) && !(block.get("vendorFolder"@)->0 is Text) ==> folder_in(document) is None
        },
{
}

/// The options every dependency shares are those of `defaultVendorOptions`; `default` counts only
/// where that key is absent.
pub proof fn the_longer_key_counts_first(document: JsonView)
    ensures
        document.get("defaultVendorOptions"@) matches Some(block) ==> (block is Table
            ==> defaults_in(document) == raw_in(block)),
        document.get("defaultVendorOptions"@) is None ==> (document.get("default"@) matches Some(
            block,
        ) ==> (block is Table ==> defaults_in(document) == raw_in(block))),
        document.get("defaultVendorOptions"@) is None && document.get("default"@) is None ==> ({
            let defaults = defaults_in(document);
            defaults.version is None && defaults.repository is None && defaults.files is None
                && defaults.hash_version_file is None && defaults.name is None
                && defaults.vendor_folder is None && defaults.release_regex is None
                && defaults.locked is None
        }),
{
}

/// The dependencies of a document are those listed, in order, each under its key; one that cannot be
/// read spoils them all.
pub proof fn the_dependencies_are_those_listed(document: JsonView)
    ensures
        document.get("vendorDependencies"@) is None ==> dependencies_in(document) == Some(
            Seq::<(Seq<char>, RawView)>::empty(),
        ),
        document.get("vendorDependencies"@) matches Some(JsonView::Table(map))
            ==> match dependencies_in(document) {
            Some(listed) => listed.len() == map.len() && forall|i: int|
                0 <= i < map.len() ==> (#[trigger] listed[i]).0 == map[i].0 && dependency_in(map[i].1)
                    == Some(listed[i].1),
            None => exists|i: int|
                0 <= i < map.len() && dependency_in((#[trigger] map[i]).1) is None,
        },
        document.get("vendorDependencies"@) matches Some(value) ==> (!(value is Table) && !falsy(value)
            ==> dependencies_in(document) is None),
{
}

/// A loaded config holds the dependencies of its document, under the same keys in the same order.
/// Each keeps what it says itself, and has from the defaults what it does not say.
pub proof fn a_loaded_dependency_keeps_what_it_says(path: Seq<char>, text: Seq<char>, i: int)
    requires
        load_spec(path, text) is Loaded,
        reading_of(format_of(path), text) is Ok,
        dependencies_in(reading_of(format_of(path), text)->Ok_0) is Some,
        0 <= i < (dependencies_in(reading_of(format_of(path), text)->Ok_0)->0).len(),
    ensures
        ({
            let document = reading_of(format_of(path), text)->Ok_0;
            let (key, raw) = (dependencies_in(document)->0)[i];
            let defaults = defaults_in(document);
            load_spec(path, text) matches LoadView::Loaded {
                folder,
                dependencies,
                defaults: shared,
            } && ({
                let (name, loaded) = dependencies[i];
                &&& Some(folder) == folder_in(document)
                &&& shared == defaults
                &&& dependencies.len() == (dependencies_in(document)->0).len()
                &&& name == key
                &&& loaded.version == if raw.version is Some {
                    raw.version
                } else {
                    defaults.version
                }
                &&& loaded.repository == if raw.repository is Some {
                    raw.repository
                } else {
                    defaults.repository
                }
                &&& loaded.files == if raw.files is Some {
                    raw.files
                } else {
                    defaults.files
                }
                &&& loaded.hash_version_file == if raw.hash_version_file is Some {
                    raw.hash_version_file
                } else {
                    defaults.hash_version_file
                }
                &&& loaded.name == if raw.name is Some {
                    raw.name
                } else {
                    defaults.name
                }
                &&& loaded.vendor_folder == if raw.vendor_folder is Some {
                    raw.vendor_folder
                } else {
                    defaults.vendor_folder
                }
                &&& loaded.release_regex == if raw.release_regex is Some {
                    raw.release_regex
                } else {
                    defaults.release_regex
                }
                &&& loaded.locked == if raw.locked is Some {
                    raw.locked
                } else {
                    defaults.locked
                }
            })
        }),
{
}

/// A folder of its own is where a dependency lands, whatever its name, and where it says nothing of
/// the global folder, whatever that is. The global folder takes the place of `{vendorFolder}`, and
/// without a folder of its own a dependency lands in the global one, under its name.
pub proof fn a_dependency_lands_in_its_own_folder(
    windows: bool,
    global: Seq<char>,
    other: Seq<char>,
    config_path: Seq<char>,
    own: Seq<char>,
    rest: Seq<char>,
    name: Seq<char>,
    another: Seq<char>,
)
    ensures
        dependency_folder_spec(windows, global, config_path, Some(own), name)
            == dependency_folder_spec(windows, global, config_path, Some(own), another),
        (forall|i: int| !#[trigger] text::occurs_at(own, "{vendorFolder}"@, i))
            ==> dependency_folder_spec(windows, global, config_path, Some(own), name)
            == dependency_folder_spec(windows, other, config_path, Some(own), name)
            && dependency_folder_spec(windows, global, config_path, Some(own), name) == anchored(
            windows,
            parent_of(windows, config_path),
            own,
        ),
        dependency_folder_spec(
            windows,
            global,
            config_path,
            Some("{vendorFolder}"@ + rest),
            name,
        ) == anchored(windows, parent_of(windows, config_path), global + rest),
        dependency_folder_spec(windows, global, config_path, None, name) == normalized(
            windows,
            crate::fsx::appended(
                windows,
                dependency_folder_spec(
                    windows,
                    global,
                    config_path,
                    Some("{vendorFolder}"@),
                    another,
                ),
                name,
            ),
        ),
{
    let word = "{vendorFolder}"@;
    let empty = Seq::<char>::empty();
    a_placeholder_is_filled(own, word, global);
    a_placeholder_is_filled(own, word, other);
    a_placeholder_is_filled(word + rest, word, global);
    a_placeholder_is_filled(word, word, global);
    assert(word + rest =~= empty + word + rest);
    assert(empty + global + rest =~= global + rest);
    assert(word =~= empty + word + empty);
    assert(empty + global + empty =~= global);
}

/// A config is loaded where its text reads and its keys are of the right type; what is wrong with it is
/// said otherwise, the text before the folder and the folder before the dependencies.
pub proof fn a_sound_config_is_loaded(path: Seq<char>, text: Seq<char>)
    ensures
        reading_of(format_of(path), text) is Err ==> load_spec(path, text) is Unparsed,
        reading_of(format_of(path), text) matches Ok(document) ==> (format_of(path)
            != ConfigFormat::Toml || toml_refusal(text) is None) ==> {
            &&& folder_in(document) is None ==> load_spec(path, text) is BadConfig
            &&& folder_in(document) is Some && dependencies_in(document) is None ==> load_spec(
                path,
                text,
            ) is BadDependencies
            &&& folder_in(document) is Some && dependencies_in(document) is Some ==> load_spec(
                path,
                text,
            ) is Loaded
        },
{
}

} // verus!
