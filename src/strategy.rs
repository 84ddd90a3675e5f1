//! Choice of where the directories come from, and the one-round exchange with
//! the caller that performs the chosen query.
use vstd::prelude::*;
use crate::environment::{get_windows_include_dirs, variable_result_is};
use crate::error::IncludeDirsError;
use crate::parse::{listed_dirs, parse_include_dirs, strings_view};
use crate::text::{chars_of, ends_with, optional_view, string_of};

verus! {

/// The platform family the tool runs on.
#[derive(Clone, Copy, Debug, PartialEq, Eq, Structural)]
pub enum Platform {
    /// A Windows-family platform.
    Windows,
    /// A POSIX-family platform.
    Unix,
    /// Any other platform.
    Other,
}

/// Whether `c` separates path components: `/` or `\`.
pub open spec fn is_path_separator(c: char) -> bool {
    c == '/' || c == '\\'
}

/// Index where the last component of `path` starts: just after its last separator.
pub open spec fn name_start(path: Seq<char>) -> int
    decreases path.len(),
{
    if path.len() == 0 {
        0
    } else if is_path_separator(path.last()) {
        path.len() as int
    } else {
        name_start(path.drop_last())
    }
}

/// `path` ends with a `.` component: a `.` that is the whole path or follows a separator.
pub open spec fn ends_with_current_dir(path: Seq<char>) -> bool {
    path.len() >= 1 && path.last() == '.' && (path.len() == 1 || is_path_separator(
        path[path.len() - 2],
    ))
}

/// `path` ends with a `..` component.
pub open spec fn ends_with_parent_dir(path: Seq<char>) -> bool {
    path.len() >= 2 && path.last() == '.' && path[path.len() - 2] == '.' && (path.len() == 2
        || is_path_separator(path[path.len() - 3]))
}

/// The file name of `path`: its last component, once trailing separators and
/// `.` components are skipped; none when the path is empty, holds only
/// separators and `.` components, or ends with `..`.
pub open spec fn file_name(path: Seq<char>) -> Option<Seq<char>>
    decreases path.len(),
{
    if path.len() == 0 {
        None
    } else if is_path_separator(path.last()) || ends_with_current_dir(path) {
        file_name(path.drop_last())
    } else if ends_with_parent_dir(path) {
        None
    } else {
        Some(path.skip(name_start(path)))
    }
}

/// The compiler at `path` has a file name of an MSVC-style compiler.
pub open spec fn has_msvc_name(path: Seq<char>) -> bool {
    match file_name(path) {
        Some(name) => is_msvc_name(name),
        None => false,
    }
}

/// The pattern `cl(?:\.exe)?$` of MSVC-style compiler names.
pub open spec fn msvc_name_pattern() -> Seq<char> {
    seq!['c', 'l', '(', '?', ':', '\\', '.', 'e', 'x', 'e', ')', '?', '$']
}

/// A file name of an MSVC-style compiler: it ends with `cl` or `cl.exe`.
pub open spec fn is_msvc_name(name: Seq<char>) -> bool {
    ends_with(name, "cl"@) || ends_with(name, "cl.exe"@)
}

/// The compiler to run: the one given, else `/usr/bin/c++` on POSIX-family
/// platforms and the bare command `c++` elsewhere.
pub open spec fn resolved_compiler(platform: Platform, compiler: Option<Seq<char>>) -> Seq<
    char,
> {
    match compiler {
        Some(c) => c,
        None => if platform == Platform::Unix {
            "/usr/bin/c++"@
        } else {
            "c++"@
        },
    }
}

/// Whether the directories come from the environment variable rather than
/// from a compiler run: on Windows, when no compiler is given or the given
/// one has an MSVC-style name.
pub open spec fn uses_environment(platform: Platform, compiler: Option<Seq<char>>) -> bool {
    platform == Platform::Windows && (compiler is None || has_msvc_name(
        resolved_compiler(platform, compiler),
    ))
}

/// The arguments that make a gcc-like compiler print its search list:
/// verbose, preprocess only, C++, source from standard input.
pub open spec fn compiler_args_spec() -> Seq<Seq<char>> {
    seq!["-v"@, "-E"@, "-x"@, "c++"@, "-"@]
}

/// What a compiler run gives: the launch error, or what its verbose output lists.
pub open spec fn compiler_result_is(
    r: Result<Vec<String>, IncludeDirsError>,
    launch: Result<Seq<char>, String>,
) -> bool {
    match launch {
        Err(e) => r == Err::<Vec<String>, IncludeDirsError>(
            IncludeDirsError::CompilerLaunchFailed(e),
        ),
        Ok(text) => match r {
            Ok(dirs) => listed_dirs(text).len() > 0 && strings_view(dirs@) == listed_dirs(text),
            Err(e) => listed_dirs(text).len() == 0 && e
                == IncludeDirsError::NoIncludeDirectoriesFound,
        },
    }
}

/// Where the directories come from.
pub enum Strategy {
    /// The `INCLUDE` environment variable.
    EnvironmentVariable,
    /// The verbose output of the compiler at this path.
    Compiler(String),
}

/// What the caller is asked to do.
pub enum Request {
    /// Read the `INCLUDE` environment variable.
    ReadIncludeVariable,
    /// Run `program` with `args`, standard input empty, and capture its diagnostic stream.
    RunCompiler { program: String, args: Vec<String> },
}

/// What the caller reports back.
pub enum Reply {
    /// The variable's value, `None` when it is unset or unreadable.
    IncludeVariable(Option<String>),
    /// The compiler's diagnostic stream as text, or why it could not be launched.
    CompilerOutput(Result<String, String>),
}

/// One step of discovery: a request to perform, or the outcome.
pub enum Step {
    Perform(Request),
    Done(Result<Vec<String>, IncludeDirsError>),
}

/// Relies on regex::Regex::new and Regex::is_match: the pattern `cl(?:\.exe)?$`
/// matches exactly the haystacks that end with `cl` or with `cl.exe`.
#[verifier::external_body]
fn regex_is_match(pattern: &str, haystack: &str) -> (r: bool)
    requires
        pattern@ == msvc_name_pattern(),
    ensures
        r == is_msvc_name(haystack@),
{
    regex::Regex::new(pattern).unwrap().is_match(haystack)
}

/// The file name of `path`: its last component, once trailing `/` or `\`
/// separators and `.` components are skipped; `None` when there is no such
/// component or it is `..`.
pub fn file_name_of(path: &str) -> (r: Option<String>)
    ensures
        match r {
            Some(name) => file_name(path@) == Some(name@),
            None => file_name(path@) is None,
        },
{
    let p = chars_of(path);
    let n = p.len();
    let mut e: usize = n;
    assert(p@.take(n as int) =~= p@);
    loop
        invariant
            p@ == path@,
            n == p@.len(),
            e <= n,
            file_name(p@) == file_name(p@.take(e as int)),
        ensures
            0 < e <= n,
            file_name(p@) == Some(p@.take(e as int).skip(name_start(p@.take(e as int)))),
        decreases e,
    {
        if e == 0 {
            assert(p@.take(0) =~= Seq::<char>::empty());
            return None;
        }
        let c = p[e - 1];
        let ghost t = p@.take(e as int);
        assert(t.last() == c);
        assert(e >= 2 ==> t[e - 2] == p@[e - 2]);
        assert(e >= 3 ==> t[e - 3] == p@[e - 3]);
        assert(p@.take(e as int).drop_last() =~= p@.take(e - 1));
        if c == '/' || c == '\\' || (c == '.' && (e == 1 || p[e - 2] == '/' || p[e - 2] == '\\')) {
            e = e - 1;
        } else if c == '.' && e >= 2 && p[e - 2] == '.' && (e == 2 || p[e - 3] == '/' || p[e - 3]
            == '\\') {
            assert(ends_with_parent_dir(t));
            return None;
        } else {
            break;
        }
    }
    let ghost q = p@.take(e as int);
    let mut k: usize = e;
    assert(q.take(k as int) =~= q);
    while k > 0 && !(p[k - 1] == '/' || p[k - 1] == '\\')
        invariant
            p@ == path@,
            file_name(p@) == Some(q.skip(name_start(q))),
            e <= n,
            n == p@.len(),
            q == p@.take(e as int),
            k <= e,
            name_start(q) == name_start(q.take(k as int)),
        decreases k,
    {
        assert(q.take(k as int).drop_last() =~= q.take(k - 1));
        k = k - 1;
    }
    let name = vstd::slice::slice_subrange(p.as_slice(), k, e);
    assert(name@ =~= q.skip(k as int));
    Some(string_of(name))
}

/// Whether the compiler at `compiler` has an MSVC-style file name
/// (ending with `cl` or `cl.exe`).
pub fn is_msvc_like_compiler(compiler: &str) -> (r: bool)
    ensures
        r == has_msvc_name(compiler@),
{
    match file_name_of(compiler) {
        None => false,
        Some(name) => {
            let pattern = "cl(?:\\.exe)?$";
            proof {
                reveal_strlit("cl(?:\\.exe)?$");
            }
            assert(pattern@ == msvc_name_pattern());
            regex_is_match(pattern, name.as_str())
        },
    }
}

/// Decides where the directories come from on `platform`, given an optional
/// compiler path.
pub fn select_strategy(platform: Platform, compiler: Option<&str>) -> (r: Strategy)
    ensures
        match r {
            Strategy::EnvironmentVariable => uses_environment(platform, optional_view(compiler)),
            Strategy::Compiler(c) => !uses_environment(platform, optional_view(compiler)) && c@
                == resolved_compiler(platform, optional_view(compiler)),
        },
{
    let path = match compiler {
        None => {
            if platform == Platform::Windows {
                return Strategy::EnvironmentVariable;
            }
            if platform == Platform::Unix {
                "/usr/bin/c++".to_owned()
            } else {
                "c++".to_owned()
            }
        },
        Some(c) => c.to_owned(),
    };
    if platform == Platform::Windows && is_msvc_like_compiler(path.as_str()) {
        return Strategy::EnvironmentVariable;
    }
    Strategy::Compiler(path)
}

/// The arguments that make a gcc-like compiler print its search list:
/// `-v -E -x c++ -`.
pub fn compiler_arguments() -> (r: Vec<String>)
    ensures
        strings_view(r@) == compiler_args_spec(),
{
    let mut r: Vec<String> = Vec::new();
    r.push("-v".to_owned());
    r.push("-E".to_owned());
    r.push("-x".to_owned());
    r.push("c++".to_owned());
    r.push("-".to_owned());
    assert(strings_view(r@) =~= compiler_args_spec());
    r
}

/// Turns the outcome of a compiler launch into directories: a launch error
/// becomes `CompilerLaunchFailed`; otherwise the diagnostic text is parsed,
/// whatever the compiler's exit status was.
pub fn get_compiler_include_dirs(launch: Result<&str, String>) -> (r: Result<
    Vec<String>,
    IncludeDirsError,
>)
    ensures
        compiler_result_is(
            r,
            match launch {
                Ok(t) => Ok(t@),
                Err(e) => Err(e),
            },
        ),
{
    match launch {
        Err(e) => Err(IncludeDirsError::CompilerLaunchFailed(e)),
        Ok(text) => parse_include_dirs(text),
    }
}


/// `q` is the request that `platform` and `compiler` call for.
pub open spec fn request_is(q: Request, platform: Platform, compiler: Option<Seq<char>>) -> bool {
    match q {
        Request::ReadIncludeVariable => uses_environment(platform, compiler),
        Request::RunCompiler { program, args } => !uses_environment(platform, compiler)
            && program@ == resolved_compiler(platform, compiler) && strings_view(args@)
            == compiler_args_spec(),
    }
}

/// The view of an optional string.
pub open spec fn optional_string_view(o: Option<String>) -> Option<Seq<char>> {
    match o {
        Some(s) => Some(s@),
        None => None,
    }
}

/// The view of a launch outcome's diagnostic text.
pub open spec fn launch_view(o: Result<String, String>) -> Result<Seq<char>, String> {
    match o {
        Ok(t) => Ok(t@),
        Err(e) => Err(e),
    }
}

/// `r` is the step that follows `reply` for `platform` and `compiler`: the
/// outcome when the reply answers the request they call for, else that request.
pub open spec fn step_is(
    r: Step,
    platform: Platform,
    compiler: Option<Seq<char>>,
    reply: Option<Reply>,
) -> bool {
    let env = uses_environment(platform, compiler);
    match reply {
        Some(Reply::IncludeVariable(v)) if env => r is Done && variable_result_is(
            r->Done_0,
            optional_string_view(v),
        ),
        Some(Reply::CompilerOutput(out)) if !env => r is Done && compiler_result_is(
            r->Done_0,
            launch_view(out),
        ),
        _ => r is Perform && request_is(r->Perform_0, platform, compiler),
    }
}

/// One step of include-directory discovery on `platform` with an optional
/// compiler path. Without a reply, or with one that does not answer the
/// request that the inputs call for, it returns that request; with the
/// answer, it returns the directories or the failure.
pub fn get_include_dirs(platform: Platform, compiler: Option<&str>, reply: Option<Reply>) -> (r:
    Step)
    ensures
        step_is(r, platform, optional_view(compiler), reply),
{
    let strategy = select_strategy(platform, compiler);
    match strategy {
        Strategy::EnvironmentVariable => match reply {
            Some(Reply::IncludeVariable(v)) => match v {
                Some(s) => Step::Done(get_windows_include_dirs(Some(s.as_str()))),
                None => Step::Done(get_windows_include_dirs(None)),
            },
            _ => Step::Perform(Request::ReadIncludeVariable),
        },
        Strategy::Compiler(program) => match reply {
            Some(Reply::CompilerOutput(out)) => match out {
                Ok(t) => Step::Done(get_compiler_include_dirs(Ok(t.as_str()))),
                Err(e) => Step::Done(get_compiler_include_dirs(Err(e))),
            },
            _ => Step::Perform(Request::RunCompiler { program, args: compiler_arguments() }),
        },
    }
}

} // verus!
