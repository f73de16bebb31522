//! Package manifests: `key = value` lines with strings and string arrays.

use vstd::prelude::*;
use vstd::slice::slice_subrange;
use vstd::string::StringExecFns;

use crate::bytecode::chunk::{option_view, string_views};
use crate::cli::words::{
    find, is_word, parted, position, split_once, to_text, trim, trimmed,
};
use crate::text::{characters, decimal, push_decimal};

verus! {

/// Package metadata of a manifest.
#[derive(Clone, Debug, PartialEq, Eq)]
pub struct PackageManifest {
    /// Human-readable package name.
    pub name: String,
    /// Source file compiled as the program entrypoint.
    pub entry: String,
    /// Module search roots tried in this order, where the manifest gives them.
    pub module_roots: Option<Vec<String>>,
    /// External package metadata.
    pub dependencies: Vec<PackageDependency>,
}

/// A package that another one depends on.
#[derive(Clone, Debug, PartialEq, Eq)]
pub struct PackageDependency {
    /// Dependency package name or locator.
    pub name: String,
    /// Optional version requirement from `name@requirement`.
    pub requirement: Option<String>,
}

/// The mathematical content of a dependency.
pub struct DependencyView {
    pub name: Seq<char>,
    pub requirement: Option<Seq<char>>,
}

impl View for PackageDependency {
    type V = DependencyView;

    open spec fn view(&self) -> DependencyView {
        DependencyView { name: self.name@, requirement: option_view(self.requirement) }
    }
}

/// What the lines of a manifest have said so far.
pub struct ManifestView {
    pub name: Option<Seq<char>>,
    pub entry: Option<Seq<char>>,
    pub module_roots: Option<Seq<Seq<char>>>,
    pub dependencies: Seq<DependencyView>,
}

/// The contents of a list of dependencies.
pub open spec fn dependency_views(dependencies: Seq<PackageDependency>) -> Seq<DependencyView> {
    Seq::new(dependencies.len(), |i: int| dependencies[i]@)
}

/// The texts of an optional list of strings.
pub open spec fn optional_views(strings: Option<Vec<String>>) -> Option<Seq<Seq<char>>> {
    match strings {
        Some(strings) => Some(string_views(strings@)),
        None => None,
    }
}

impl View for PackageManifest {
    type V = ManifestView;

    open spec fn view(&self) -> ManifestView {
        ManifestView {
            name: Some(self.name@),
            entry: Some(self.entry@),
            module_roots: optional_views(self.module_roots),
            dependencies: dependency_views(self.dependencies@),
        }
    }
}

// ---------------------------------------------------------------------------
// What a manifest says
// ---------------------------------------------------------------------------

/// Where the comment of a line begins, from `i` on, or the length of the line: at the first
/// `#` that is not inside quotes.
pub open spec fn comment_from(line: Seq<char>, i: int, quoted: bool, escaped: bool) -> int
    decreases line.len() - i,
{
    if !(0 <= i < line.len()) {
        i
    } else if escaped {
        comment_from(line, i + 1, quoted, false)
    } else if line[i] == '\\' && quoted {
        comment_from(line, i + 1, quoted, true)
    } else if line[i] == '"' {
        comment_from(line, i + 1, !quoted, false)
    } else if line[i] == '#' && !quoted {
        i
    } else {
        comment_from(line, i + 1, quoted, false)
    }
}

/// A line without its comment and the white space around it.
pub open spec fn content(line: Seq<char>) -> Seq<char> {
    trimmed(line.take(comment_from(line, 0, false, false)))
}

/// A text with each backslash before `c` taken away, from `i` on.
pub open spec fn unescaped_from(s: Seq<char>, c: char, i: int) -> Seq<char>
    decreases s.len() - i,
{
    if !(0 <= i < s.len()) {
        Seq::empty()
    } else if s[i] == '\\' && i + 1 < s.len() && s[i + 1] == c {
        seq![c] + unescaped_from(s, c, i + 2)
    } else {
        seq![s[i]] + unescaped_from(s, c, i + 1)
    }
}

/// The text of a quoted string.
pub open spec fn string_value(value: Seq<char>) -> Option<Seq<char>> {
    if value.len() >= 2 && value[0] == '"' && value.last() == '"' {
        let inner = value.subrange(1, value.len() - 1);
        Some(unescaped_from(unescaped_from(inner, '"', 0), '\\', 0))
    } else {
        None
    }
}

/// The texts of quoted strings separated by commas, from `i` on.
pub open spec fn items_from(inner: Seq<char>, i: int) -> Option<Seq<Seq<char>>>
    decreases inner.len() - i,
{
    let end = position(inner, ',', i);
    match string_value(trimmed(inner.subrange(i, end))) {
        Some(item) => if i <= end < inner.len() {
            match items_from(inner, end + 1) {
                Some(rest) => Some(seq![item] + rest),
                None => None,
            }
        } else {
            Some(seq![item])
        },
        None => None,
    }
}

/// The texts of an array of quoted strings, or what is expected in its place.
pub open spec fn array_value(value: Seq<char>) -> Result<Seq<Seq<char>>, Seq<char>> {
    if value.len() >= 2 && value[0] == '[' && value.last() == ']' {
        let inner = trimmed(value.subrange(1, value.len() - 1));
        if inner.len() == 0 {
            Ok(Seq::empty())
        } else {
            match items_from(inner, 0) {
                Some(items) => Ok(items),
                None => Err("expected quoted string"@),
            }
        }
    } else {
        Err("expected string array"@)
    }
}

/// The dependency that an item of the list names.
pub open spec fn dependency(item: Seq<char>) -> DependencyView {
    match parted(item, '@') {
        Some((name, requirement)) => DependencyView { name, requirement: Some(requirement) },
        None => DependencyView { name: item, requirement: None },
    }
}

/// What a manifest says after one more line, or what is wrong with the line.
pub open spec fn after_line(line: Seq<char>, m: ManifestView) -> Result<ManifestView, Seq<char>> {
    let text = content(line);
    if text.len() == 0 {
        Ok(m)
    } else {
        match parted(text, '=') {
            None => Err("expected `key = value`"@),
            Some((key, value)) => {
                let key = trimmed(key);
                let value = trimmed(value);
                if key == "name"@ {
                    match string_value(value) {
                        Some(name) => Ok(ManifestView { name: Some(name), ..m }),
                        None => Err("expected quoted string"@),
                    }
                } else if key == "entry"@ {
                    match string_value(value) {
                        Some(entry) => Ok(ManifestView { entry: Some(entry), ..m }),
                        None => Err("expected quoted string"@),
                    }
                } else if key == "module_roots"@ {
                    match array_value(value) {
                        Ok(roots) => Ok(ManifestView { module_roots: Some(roots), ..m }),
                        Err(message) => Err(message),
                    }
                } else if key == "dependencies"@ {
                    match array_value(value) {
                        Ok(items) => Ok(
                            ManifestView {
                                dependencies: Seq::new(
                                    items.len(),
                                    |i: int| dependency(items[i]),
                                ),
                                ..m
                            },
                        ),
                        Err(message) => Err(message),
                    }
                } else {
                    Err("unknown manifest key"@)
                }
            },
        }
    }
}

/// A message with the number of its line.
pub open spec fn at_line(number: nat, message: Seq<char>) -> Seq<char> {
    "line "@ + decimal(number) + ": "@ + message
}

/// What a manifest says from the character `i` on, which begins the line `number`.
pub open spec fn manifest_from(text: Seq<char>, i: int, number: nat, m: ManifestView) -> Result<
    ManifestView,
    Seq<char>,
>
    decreases text.len() - i,
{
    if !(0 <= i < text.len()) {
        Ok(m)
    } else {
        let end = position(text, '\n', i);
        match after_line(text.subrange(i, end), m) {
            Ok(m) => if i <= end < text.len() {
                manifest_from(text, end + 1, number + 1, m)
            } else {
                Ok(m)
            },
            Err(message) => Err(at_line(number, message)),
        }
    }
}

/// A manifest that says nothing.
pub open spec fn empty_manifest() -> ManifestView {
    ManifestView {
        name: None,
        entry: None,
        module_roots: None,
        dependencies: Seq::empty(),
    }
}

/// What a manifest says, or what is wrong with it.
pub open spec fn manifest_of(text: Seq<char>) -> Result<ManifestView, Seq<char>> {
    match manifest_from(text, 0, 1, empty_manifest()) {
        Ok(m) => if m.name is None {
            Err("missing `name`"@)
        } else if m.entry is None {
            Err("missing `entry`"@)
        } else {
            Ok(m)
        },
        Err(message) => Err(message),
    }
}

// ---------------------------------------------------------------------------
// The parser
// ---------------------------------------------------------------------------

/// A manifest while its lines are read.
struct Draft {
    name: Option<String>,
    entry: Option<String>,
    module_roots: Option<Vec<String>>,
    dependencies: Vec<PackageDependency>,
}

impl View for Draft {
    type V = ManifestView;

    closed spec fn view(&self) -> ManifestView {
        ManifestView {
            name: option_view(self.name),
            entry: option_view(self.entry),
            module_roots: optional_views(self.module_roots),
            dependencies: dependency_views(self.dependencies@),
        }
    }
}

/// Parses a package manifest.
pub fn parse_package_manifest(source: &str) -> (result: Result<PackageManifest, String>)
    ensures
        match result {
            Ok(manifest) => manifest_of(source@) == Ok::<ManifestView, Seq<char>>(manifest@),
            Err(message) => manifest_of(source@) == Err::<ManifestView, Seq<char>>(message@),
        },
{
    let chars = characters(source);
    let ghost text = source@;
    let mut draft = Draft {
        name: None,
        entry: None,
        module_roots: None,
        dependencies: Vec::new(),
    };
    assert(draft@.dependencies =~= Seq::empty());
    assert(draft@ == empty_manifest());
    let mut i: usize = 0;
    let mut lines: usize = 0;
    while i < chars.len()
        invariant
            i <= chars@.len(),
            chars@ == text,
            text == source@,
            lines <= i,
            manifest_from(text, 0, 1, empty_manifest()) == manifest_from(
                text,
                i as int,
                (lines + 1) as nat,
                draft@,
            ),
        decreases chars.len() - i,
    {
        let end: usize = find(chars.as_slice(), '\n', i);
        let line = slice_subrange(chars.as_slice(), i, end);
        match draft.read_line(line) {
            Ok(_) => {},
            Err(message) => {
                let mut full = String::from_str("line ");
                push_decimal(&mut full, (lines + 1) as u64);
                full.append(": ");
                full.append(message);
                return Err(full);
            },
        }
        if end == chars.len() {
            i = end;
        } else {
            i = end + 1;
            lines = lines + 1;
        }
    }
    let Draft { name, entry, module_roots, dependencies } = draft;
    match name {
        None => Err(String::from_str("missing `name`")),
        Some(name) => match entry {
            None => Err(String::from_str("missing `entry`")),
            Some(entry) => Ok(PackageManifest { name, entry, module_roots, dependencies }),
        },
    }
}

impl Draft {
    /// Reads one line.
    fn read_line(&mut self, line: &[char]) -> (result: Result<(), &'static str>)
        ensures
            match result {
                Ok(_) => after_line(line@, old(self)@) == Ok::<ManifestView, Seq<char>>(
                    final(self)@,
                ),
                Err(message) => after_line(line@, old(self)@) == Err::<ManifestView, Seq<char>>(
                    message@,
                ),
            },
    {
        let text = trim(strip_manifest_comment(line));
        if text.len() == 0 {
            return Ok(());
        }
        match split_once(text, '=') {
            None => Err("expected `key = value`"),
            Some((key, value)) => {
                let key = trim(key);
                let value = trim(value);
                if is_word(key, "name") {
                    match parse_manifest_string(value) {
                        Some(name) => {
                            self.name = Some(name);
                            Ok(())
                        },
                        None => Err("expected quoted string"),
                    }
                } else if is_word(key, "entry") {
                    match parse_manifest_string(value) {
                        Some(entry) => {
                            self.entry = Some(entry);
                            Ok(())
                        },
                        None => Err("expected quoted string"),
                    }
                } else if is_word(key, "module_roots") {
                    let roots = parse_manifest_string_array(value)?;
                    self.module_roots = Some(roots);
                    Ok(())
                } else if is_word(key, "dependencies") {
                    let items = parse_manifest_string_array(value)?;
                    self.dependencies = parse_dependencies(&items);
                    Ok(())
                } else {
                    Err("unknown manifest key")
                }
            },
        }
    }
}

/// A line without its comment.
fn strip_manifest_comment(line: &[char]) -> (rest: &[char])
    ensures
        rest@ == line@.take(comment_from(line@, 0, false, false)),
{
    let mut i: usize = 0;
    let mut quoted: bool = false;
    let mut escaped: bool = false;
    while i < line.len()
        invariant
            i <= line@.len(),
            comment_from(line@, 0, false, false) == comment_from(
                line@,
                i as int,
                quoted,
                escaped,
            ),
        decreases line.len() - i,
    {
        let c: char = line[i];
        if escaped {
            escaped = false;
        } else if c == '\\' && quoted {
            escaped = true;
        } else if c == '"' {
            quoted = !quoted;
        } else if c == '#' && !quoted {
            let rest = slice_subrange(line, 0, i);
            assert(rest@ =~= line@.take(i as int));
            return rest;
        }
        i = i + 1;
    }
    assert(line@.take(i as int) =~= line@);
    line
}

/// A text with each backslash before `c` taken away.
fn unescape(s: &[char], c: char) -> (out: Vec<char>)
    ensures
        out@ == unescaped_from(s@, c, 0),
{
    let mut out: Vec<char> = Vec::new();
    let mut i: usize = 0;
    assert(out@ + unescaped_from(s@, c, 0) =~= unescaped_from(s@, c, 0));
    while i < s.len()
        invariant
            i <= s@.len(),
            unescaped_from(s@, c, 0) == out@ + unescaped_from(s@, c, i as int),
        decreases s.len() - i,
    {
        let ghost before = out@;
        if s[i] == '\\' && i + 1 < s.len() && s[i + 1] == c {
            out.push(c);
            assert(before + (seq![c] + unescaped_from(s@, c, i + 2)) =~= out@ + unescaped_from(
                s@,
                c,
                i + 2,
            ));
            i = i + 2;
        } else {
            let item: char = s[i];
            out.push(item);
            assert(before + (seq![item] + unescaped_from(s@, c, i + 1)) =~= out@ + unescaped_from(
                s@,
                c,
                i + 1,
            ));
            i = i + 1;
        }
    }
    assert(out@ + Seq::<char>::empty() =~= out@);
    out
}

/// The text of a quoted string.
fn parse_manifest_string(value: &[char]) -> (text: Option<String>)
    ensures
        match text {
            Some(text) => string_value(value@) == Some(text@),
            None => string_value(value@) is None,
        },
{
    let n: usize = value.len();
    if n >= 2 && value[0] == '"' && value[n - 1] == '"' {
        let inner = slice_subrange(value, 1, n - 1);
        let quotes = unescape(inner, '"');
        let plain = unescape(quotes.as_slice(), '\\');
        Some(to_text(plain.as_slice()))
    } else {
        None
    }
}

/// The texts of an array of quoted strings.
fn parse_manifest_string_array(value: &[char]) -> (result: Result<Vec<String>, &'static str>)
    ensures
        match result {
            Ok(items) => array_value(value@) == Ok::<Seq<Seq<char>>, Seq<char>>(
                string_views(items@),
            ),
            Err(message) => array_value(value@) == Err::<Seq<Seq<char>>, Seq<char>>(message@),
        },
{
    let n: usize = value.len();
    let mut items: Vec<String> = Vec::new();
    assert(string_views(items@) =~= Seq::empty());
    if !(n >= 2 && value[0] == '[' && value[n - 1] == ']') {
        return Err("expected string array");
    }
    let inner = trim(slice_subrange(value, 1, n - 1));
    if inner.len() == 0 {
        return Ok(items);
    }
    let mut i: usize = 0;
    proof {
        if let Some(all) = items_from(inner@, 0) {
            assert(Seq::<Seq<char>>::empty() + all =~= all);
        }
    }
    loop
        invariant
            i <= inner@.len(),
            inner@.len() > 0,
            array_value(value@) == match items_from(inner@, 0) {
                Some(items) => Ok(items),
                None => Err("expected quoted string"@),
            },
            items_from(inner@, 0) == match items_from(inner@, i as int) {
                Some(rest) => Some(string_views(items@) + rest),
                None => None,
            },
        decreases inner.len() - i,
    {
        let end: usize = find(inner, ',', i);
        let ghost before = string_views(items@);
        match parse_manifest_string(trim(slice_subrange(inner, i, end))) {
            Some(item) => {
                let ghost view = item@;
                items.push(item);
                assert(string_views(items@) =~= before.push(view));
                if end == inner.len() {
                    assert(before + seq![view] =~= before.push(view));
                    return Ok(items);
                }
                proof {
                    if let Some(rest) = items_from(inner@, end + 1) {
                        assert(before + (seq![view] + rest) =~= before.push(view) + rest);
                    }
                }
                i = end + 1;
            },
            None => {
                return Err("expected quoted string");
            },
        }
    }
}

/// The dependencies that a list names.
fn parse_dependencies(items: &Vec<String>) -> (dependencies: Vec<PackageDependency>)
    ensures
        dependency_views(dependencies@) == Seq::new(
            items@.len(),
            |i: int| dependency(string_views(items@)[i]),
        ),
{
    let mut dependencies: Vec<PackageDependency> = Vec::new();
    let mut i: usize = 0;
    while i < items.len()
        invariant
            i <= items@.len(),
            dependencies@.len() == i,
            forall|k: int|
                0 <= k < i ==> #[trigger] dependencies@[k]@ == dependency(items@[k]@),
        decreases items.len() - i,
    {
        dependencies.push(parse_dependency(items[i].as_str()));
        i = i + 1;
    }
    assert(dependency_views(dependencies@) =~= Seq::new(
        items@.len(),
        |i: int| dependency(string_views(items@)[i]),
    ));
    dependencies
}

/// The dependency that an item of the list names.
fn parse_dependency(value: &str) -> (parsed: PackageDependency)
    ensures
        parsed@ == dependency(value@),
{
    let chars = characters(value);
    match split_once(chars.as_slice(), '@') {
        Some((name, requirement)) => PackageDependency {
            name: to_text(name),
            requirement: Some(to_text(requirement)),
        },
        None => PackageDependency { name: value.to_owned(), requirement: None },
    }
}

} // verus!
