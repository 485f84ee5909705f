use vstd::prelude::*;
use vstd::string::StrSliceExecFns;
use crate::span::Span;
use crate::text::{concat3, concat5, same_text};
use crate::error::{OcelotError, OcelotResult, is_message_error};
use crate::resolver::resolution::{last_char_before, last_char_position, lemma_last_char_position};

verus! {

// ---------------------------------------------------------------- module names from paths

/// The components of a `/`-separated path, leaving out empty and `.` components.
pub open spec fn path_components(path: Seq<char>) -> Seq<Seq<char>>
    decreases path.len(),
{
    let slash = last_char_position(path, '/', path.len() as int);
    let last = path.subrange(slash + 1, path.len() as int);
    let head = if slash < 0 {
        Seq::empty()
    } else {
        proof {
            lemma_last_char_position(path, '/', path.len() as int);
        }
        path_components(path.subrange(0, slash))
    };
    if last.len() == 0 || last == "."@ { head } else { head.push(last) }
}

/// A file name without its extension: up to its last `.`, unless that `.` starts it.
pub open spec fn without_extension(name: Seq<char>) -> Seq<char> {
    let dot = last_char_position(name, '.', name.len() as int);
    if dot <= 0 { name } else { name.subrange(0, dot) }
}

/// Components joined by `::`.
pub open spec fn joined_components(components: Seq<Seq<char>>) -> Seq<char>
    decreases components.len(),
{
    if components.len() == 0 {
        Seq::empty()
    } else if components.len() == 1 {
        components[0]
    } else {
        joined_components(components.drop_last()) + "::"@ + components.last()
    }
}

/// The module name of the file at `path` below `root`: the components of `path` after
/// those of `root`, the last one without its extension, joined by `::`.
pub open spec fn module_name_of(root: Seq<char>, path: Seq<char>) -> Option<Seq<char>> {
    let prefix = path_components(root);
    let components = path_components(path);
    if !prefix.is_prefix_of(components) {
        None
    } else {
        let rest = components.subrange(prefix.len() as int, components.len() as int);
        Some(if rest.len() == 0 {
            Seq::empty()
        } else {
            joined_components(rest.drop_last().push(without_extension(rest.last())))
        })
    }
}

/// The texts of strings, in order.
pub open spec fn texts(strings: Seq<String>) -> Seq<Seq<char>> {
    strings.map_values(|c: String| c@)
}

fn split_components(path: &str) -> (components: Vec<String>)
    ensures
        texts(components@) == path_components(path@),
    decreases path@.len(),
{
    let length = path.unicode_len();
    let slash = last_char_before(path, '/', length);
    proof {
        lemma_last_char_position(path@, '/', length as int);
    }
    let start = if slash == length { 0 } else { slash + 1 };
    let last = path.substring_char(start, length);
    let mut components = if slash == length {
        Vec::new()
    } else {
        split_components(path.substring_char(0, slash))
    };
    proof {
        reveal_strlit(".");
        if slash == length {
            assert(texts(components@) =~= Seq::<Seq<char>>::empty());
        }
    }
    if last.unicode_len() == 0 || same_text(last, ".") {
        return components;
    }
    let ghost head = components@;
    components.push(last.to_owned());
    proof {
        assert(texts(components@) =~= texts(head).push(last@));
    }
    components
}

fn without_extension_of(name: &str) -> (stem: String)
    ensures
        stem@ == without_extension(name@),
{
    let length = name.unicode_len();
    let mut index = length;
    while index > 0
        invariant
            index <= length,
            length == name@.len(),
            last_char_position(name@, '.', length as int)
                == last_char_position(name@, '.', index as int),
        decreases index,
    {
        if name.get_char(index - 1) == '.' {
            if index - 1 == 0 {
                return name.to_owned();
            }
            return name.substring_char(0, index - 1).to_owned();
        }
        index = index - 1;
    }
    name.to_owned()
}

/// Derives the module name of the file at `path` from its place below `execution_root`:
/// `examples/math/greet.ocelot` below `examples` is `math::greet`.
pub fn module_name_from_path(execution_root: &str, path: &str) -> (name: OcelotResult<String>)
    ensures
        match module_name_of(execution_root@, path@) {
            Some(expected) => name matches Ok(n) && n@ == expected,
            None => name matches Err(e) && is_message_error(e, "internal error: `"@ + path@
                + "` is not inside execution root `"@ + execution_root@ + "`"@),
        },
{
    let prefix = split_components(execution_root);
    let components = split_components(path);
    let ghost prefix_view = texts(prefix@);
    let ghost view = texts(components@);
    proof {
        assert(prefix_view.len() == prefix@.len());
        assert(view.len() == components@.len());
    }
    if prefix.len() > components.len() {
        let message = concat5("internal error: `", path, "` is not inside execution root `", execution_root, "`");
        return Err(OcelotError::message(message));
    }
    let mut index: usize = 0;
    while index < prefix.len()
        invariant
            index <= prefix@.len(),
            prefix@.len() <= components@.len(),
            prefix_view == texts(prefix@),
            view == texts(components@),
            prefix_view == path_components(execution_root@),
            view == path_components(path@),
            forall|k: int| 0 <= k < index ==> prefix_view[k] == view[k],
        decreases prefix@.len() - index,
    {
        if !same_text(prefix[index].as_str(), components[index].as_str()) {
            proof {
                assert(prefix_view[index as int] != view[index as int]);
                assert(view.subrange(0, prefix_view.len() as int)[index as int] == view[index as int]);
                assert(!prefix_view.is_prefix_of(view));
            }
            let message = concat5("internal error: `", path, "` is not inside execution root `", execution_root, "`");
            return Err(OcelotError::message(message));
        }
        index = index + 1;
    }
    proof {
        assert(prefix_view.is_prefix_of(view));
    }
    let ghost rest = view.subrange(prefix_view.len() as int, view.len() as int);
    let mut name = String::new();
    let count = components.len();
    let mut position = prefix.len();
    if position == count {
        return Ok(name);
    }
    let ghost parts = rest.drop_last().push(without_extension(rest.last()));
    while position < count
        invariant
            prefix@.len() <= position <= count,
            count == components@.len(),
            count > prefix@.len(),
            view == texts(components@),
            view == path_components(path@),
            texts(prefix@) == path_components(execution_root@),
            rest == view.subrange(prefix@.len() as int, view.len() as int),
            parts == rest.drop_last().push(without_extension(rest.last())),
            name@ == joined_components(parts.take(position - prefix@.len())),
        decreases count - position,
    {
        if position > prefix.len() {
            name.append("::");
        }
        let component = if position + 1 == count {
            without_extension_of(components[position].as_str())
        } else {
            components[position].clone()
        };
        proof {
            let k = position - prefix@.len();
            assert(parts.take(k + 1).drop_last() =~= parts.take(k));
            assert(parts[k] == component@);
        }
        name.append(component.as_str());
        position = position + 1;
        proof {
            let k = position - prefix@.len();
            if k == 1 {
                assert(joined_components(parts.take(0)) == Seq::<char>::empty());
                assert(name@ =~= joined_components(parts.take(k)));
            }
        }
    }
    proof {
        assert(parts.take(count - prefix@.len()) =~= parts);
    }
    Ok(name)
}

// ---------------------------------------------------------------- test runs

/// Filter parts that select tests by name or file path.
#[derive(Debug, Clone)]
pub struct TestFilter {
    parts: Vec<String>,
}

impl TestFilter {
    /// The filter parts.
    pub closed spec fn part_list(&self) -> Seq<Seq<char>> {
        self.parts@.map_values(|p: String| p@)
    }

    /// Creates a filter from parts that are already normalized.
    pub fn new(parts: Vec<String>) -> (filter: TestFilter)
        ensures
            filter.part_list() == parts@.map_values(|p: String| p@),
    {
        TestFilter { parts }
    }

    /// Whether the filter has no parts.
    pub fn is_empty(&self) -> (empty: bool)
        ensures
            empty == (self.part_list().len() == 0),
    {
        self.parts.len() == 0
    }

    /// The filter parts.
    pub fn parts(&self) -> (parts: &[String])
        ensures
            parts@.map_values(|p: String| p@) == self.part_list(),
    {
        self.parts.as_slice()
    }
}

impl Default for TestFilter {
    fn default() -> (filter: TestFilter)
        ensures
            filter.part_list().len() == 0,
    {
        TestFilter::new(Vec::new())
    }
}

/// A test that passed: its file and name.
#[derive(Debug, Clone)]
pub struct PassedTestResult {
    pub file_path: String,
    pub name: String,
}

impl PassedTestResult {
    /// Creates a passed test result.
    pub fn new(file_path: &str, name: &str) -> (result: PassedTestResult)
        ensures
            result.file_path@ == file_path@,
            result.name@ == name@,
    {
        PassedTestResult { file_path: String::from_str(file_path), name: String::from_str(name) }
    }
}

/// A test that failed: its file, name and what went wrong.
#[derive(Debug, Clone)]
pub struct FailedTestResult {
    pub file_path: String,
    pub name: String,
    pub message: String,
}

impl FailedTestResult {
    /// Creates a failed test result.
    pub fn new(file_path: &str, name: &str, message: &str) -> (result: FailedTestResult)
        ensures
            result.file_path@ == file_path@,
            result.name@ == name@,
            result.message@ == message@,
    {
        FailedTestResult { file_path: String::from_str(file_path), name: String::from_str(name), message: String::from_str(message) }
    }
}

/// The outcome of running the tests of a file.
#[derive(Debug, Clone)]
pub struct TestRunSummary {
    pub passed: Vec<PassedTestResult>,
    pub failed: Vec<FailedTestResult>,
}

impl TestRunSummary {
    /// A summary without results.
    pub fn new() -> (summary: TestRunSummary)
        ensures
            summary.passed@.len() == 0,
            summary.failed@.len() == 0,
    {
        TestRunSummary { passed: Vec::new(), failed: Vec::new() }
    }

    /// Whether every test that ran passed.
    pub fn is_success(&self) -> (success: bool)
        ensures
            success == (self.failed@.len() == 0),
    {
        self.failed.len() == 0
    }
}

impl Default for TestRunSummary {
    fn default() -> (summary: TestRunSummary)
        ensures
            summary.passed@.len() == 0,
            summary.failed@.len() == 0,
    {
        TestRunSummary::new()
    }
}

/// A test item found in a file: its file, name and span.
#[derive(Debug, Clone)]
pub struct DiscoveredTest {
    pub file_path: String,
    pub name: String,
    pub span: Span,
}

impl DiscoveredTest {
    /// Creates a discovered test.
    pub fn new(file_path: &str, name: &str, span: Span) -> (test: DiscoveredTest)
        ensures
            test.file_path@ == file_path@,
            test.name@ == name@,
            test.span == span,
    {
        DiscoveredTest { file_path: String::from_str(file_path), name: String::from_str(name), span }
    }
}

/// A module compiled into the toolchain: its name and text.
#[derive(Debug, Clone)]
pub struct BuiltinModule {
    pub module_name: String,
    pub source: String,
}

impl BuiltinModule {
    /// Creates a builtin module.
    pub fn new(module_name: &str, source: &str) -> (module: BuiltinModule)
        ensures
            module.module_name@ == module_name@,
            module.source@ == source@,
    {
        BuiltinModule { module_name: String::from_str(module_name), source: String::from_str(source) }
    }

    /// The path under which the module's text is reported: `<builtin:name>`.
    pub fn source_file_path(&self) -> (path: String)
        ensures
            path@ == "<builtin:"@ + self.module_name@ + ">"@,
    {
        concat3("<builtin:", self.module_name.as_str(), ">")
    }
}

} // verus!
