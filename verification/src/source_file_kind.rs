use vstd::prelude::*;
use crate::error::{OcelotError, OcelotResult, is_message_error};
use crate::text::{chars_of, concat3};

verus! {

/// Offset of the first character of the file name: just past the last `/`.
pub open spec fn file_name_start(path: Seq<char>, n: int) -> int
    decreases n,
{
    if n <= 0 {
        0
    } else if path[n - 1] == '/' {
        n
    } else {
        file_name_start(path, n - 1)
    }
}

/// Offset of the last `.` among the first `n` characters that lies after `from`, or -1.
pub open spec fn last_dot_after(path: Seq<char>, from: int, n: int) -> int
    decreases n - from,
{
    if n <= from {
        -1
    } else if path[n - 1] == '.' {
        n - 1
    } else {
        last_dot_after(path, from, n - 1)
    }
}

/// The extension of the path's file name: the text after its last `.`, when that dot
/// is not the first character of the file name.
pub open spec fn path_extension(path: Seq<char>) -> Option<Seq<char>> {
    let name_start = file_name_start(path, path.len() as int);
    let dot = last_dot_after(path, name_start, path.len() as int);
    if dot <= name_start {
        None
    } else {
        Some(path.subrange(dot + 1, path.len() as int))
    }
}

proof fn lemma_last_dot_after(path: Seq<char>, from: int, n: int)
    requires
        0 <= from,
        n <= path.len(),
    ensures
        last_dot_after(path, from, n) == -1 || (from <= last_dot_after(path, from, n) < n
            && path[last_dot_after(path, from, n)] == '.'),
    decreases n - from,
{
    if n > from && path[n - 1] != '.' {
        lemma_last_dot_after(path, from, n - 1);
    }
}

proof fn lemma_file_name_start(path: Seq<char>, n: int)
    requires
        n <= path.len(),
    ensures
        0 <= file_name_start(path, n) <= if n < 0 { 0 } else { n },
    decreases n,
{
    if n > 0 && path[n - 1] != '/' {
        lemma_file_name_start(path, n - 1);
    }
}

/// Semantic role assigned to one source file based on its extension.
#[derive(Debug, Clone, Copy, PartialEq, Eq, Structural)]
pub enum SourceFileKind {
    Module,
    Script,
}

/// The message of the error for a path with an unsupported extension.
pub open spec fn unsupported_path_message(path: Seq<char>) -> Seq<char> {
    "unsupported source file `"@ + path + "`: expected `.ocelot` or `.ocelot-script`"@
}

impl SourceFileKind {
    /// Infers a source file kind from a path extension: `.ocelot` files are modules,
    /// `.ocelot-script` files are scripts, and any other path is an error.
    pub fn from_path(path: &str) -> (kind: OcelotResult<SourceFileKind>)
        ensures
            path_extension(path@) == Some("ocelot"@) ==> kind == Ok::<SourceFileKind, OcelotError>(SourceFileKind::Module),
            path_extension(path@) == Some("ocelot-script"@) ==> kind == Ok::<SourceFileKind, OcelotError>(SourceFileKind::Script),
            path_extension(path@) != Some("ocelot"@) && path_extension(path@) != Some("ocelot-script"@)
                ==> kind is Err && is_message_error(kind->Err_0, unsupported_path_message(path@)),
    {
        let chars = chars_of(path);
        let length = chars.len();
        let mut name_start = length;
        while name_start > 0 && chars[name_start - 1] != '/'
            invariant
                chars@ == path@,
                name_start <= length == path@.len(),
                file_name_start(path@, name_start as int) == file_name_start(path@, length as int),
            decreases name_start,
        {
            name_start = name_start - 1;
        }
        let mut dot_end = length;
        while dot_end > name_start && chars[dot_end - 1] != '.'
            invariant
                chars@ == path@,
                name_start <= dot_end <= length == path@.len(),
                last_dot_after(path@, name_start as int, dot_end as int) == last_dot_after(path@, name_start as int, length as int),
            decreases dot_end,
        {
            dot_end = dot_end - 1;
        }
        proof {
            lemma_file_name_start(path@, length as int);
            lemma_last_dot_after(path@, name_start as int, length as int);
        }
        if dot_end > name_start && dot_end - 1 > name_start {
            let ghost extension = path@.subrange(dot_end as int, length as int);
            assert(path_extension(path@) == Some(extension));
            proof {
                reveal_strlit("ocelot");
                reveal_strlit("ocelot-script");
                assert("ocelot"@.len() == 6);
                assert("ocelot-script"@.len() == 13);
                assert("ocelot"@ != "ocelot-script"@);
            }
            if is_extension(&chars, dot_end, "ocelot") {
                return Ok(SourceFileKind::Module);
            }
            if is_extension(&chars, dot_end, "ocelot-script") {
                return Ok(SourceFileKind::Script);
            }
        } else {
            assert(path_extension(path@) is None);
        }
        Err(OcelotError::message(concat3(
            "unsupported source file `",
            path,
            "`: expected `.ocelot` or `.ocelot-script`",
        )))
    }

    /// Returns whether this kind allows top-level executable statements: only scripts do.
    pub fn allows_top_level_statements(self) -> (allowed: bool)
        ensures
            allowed == (self == SourceFileKind::Script),
    {
        match self {
            SourceFileKind::Script => true,
            SourceFileKind::Module => false,
        }
    }
}

/// Returns whether `chars[from..]` holds exactly the characters of `expected`.
fn is_extension(chars: &Vec<char>, from: usize, expected: &str) -> (same: bool)
    requires
        from <= chars@.len(),
    ensures
        same == (chars@.subrange(from as int, chars@.len() as int) == expected@),
{
    let expected_chars = chars_of(expected);
    let length = chars.len();
    if length - from != expected_chars.len() {
        return false;
    }
    let mut index: usize = 0;
    while index < expected_chars.len()
        invariant
            expected_chars@ == expected@,
            length == chars@.len(),
            from <= length,
            length - from == expected@.len(),
            index <= expected@.len(),
            forall|k: int| 0 <= k < index ==> chars@[from + k] == expected@[k],
        decreases expected@.len() - index,
    {
        if chars[from + index] != expected_chars[index] {
            assert(chars@.subrange(from as int, length as int)[index as int] != expected@[index as int]);
            return false;
        }
        index = index + 1;
    }
    assert(chars@.subrange(from as int, length as int) =~= expected@);
    true
}

} // verus!
