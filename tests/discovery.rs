use get_system_include_dirs::{
    compiler_arguments, file_name_of, get_compiler_include_dirs, get_include_dirs,
    get_windows_include_dirs, is_msvc_like_compiler, select_strategy, split_include_variable,
    IncludeDirsError, Platform, Reply, Request, Step, Strategy,
};

fn strings(v: &[&str]) -> Vec<String> {
    v.iter().map(|s| s.to_string()).collect()
}

#[test]
fn variable_pieces_split_and_normalized() {
    assert_eq!(split_include_variable("C:\\foo;;C:\\bar\\baz"), strings(&["C:/foo", "C:/bar/baz"]));
    assert_eq!(
        get_windows_include_dirs(Some("C:\\foo;;C:\\bar\\baz")),
        Ok(strings(&["C:/foo", "C:/bar/baz"]))
    );
}

#[test]
fn variable_of_separators_only_is_empty_success() {
    assert_eq!(get_windows_include_dirs(Some(";;;")), Ok(Vec::new()));
    assert_eq!(get_windows_include_dirs(Some("")), Ok(Vec::new()));
}

#[test]
fn unset_variable_fails() {
    assert_eq!(get_windows_include_dirs(None), Err(IncludeDirsError::EnvironmentVariableMissing));
}

#[test]
fn launch_failure_is_reported() {
    let r = get_compiler_include_dirs(Err("No such file or directory (os error 2)".to_string()));
    assert_eq!(
        r,
        Err(IncludeDirsError::CompilerLaunchFailed("No such file or directory (os error 2)".to_string()))
    );
}

#[test]
fn compiler_output_is_parsed() {
    let text = "#include <...> search starts here:\n /usr/include\nEnd of search list.\n";
    assert_eq!(get_compiler_include_dirs(Ok(text)), Ok(strings(&["/usr/include"])));
    assert_eq!(
        get_compiler_include_dirs(Ok("no list here")),
        Err(IncludeDirsError::NoIncludeDirectoriesFound)
    );
}

#[test]
fn messages() {
    assert_eq!(IncludeDirsError::EnvironmentVariableMissing.message(), "INCLUDE environment variable not set");
    assert_eq!(
        IncludeDirsError::CompilerLaunchFailed("denied".to_string()).message(),
        "Failed to execute compiler: denied"
    );
    assert_eq!(
        IncludeDirsError::NoIncludeDirectoriesFound.message(),
        "No include directories found in compiler output"
    );
}

#[test]
fn file_names() {
    assert_eq!(file_name_of("a/b\\c.exe"), Some("c.exe".to_string()));
    assert_eq!(file_name_of("cl"), Some("cl".to_string()));
    assert_eq!(file_name_of("tools/cl/"), Some("cl".to_string()));
    assert_eq!(file_name_of("tools/cl/./"), Some("cl".to_string()));
    assert_eq!(file_name_of("tools\\cl\\.\\\\"), Some("cl".to_string()));
    assert_eq!(file_name_of("./cl"), Some("cl".to_string()));
    assert_eq!(file_name_of(".cl"), Some(".cl".to_string()));
    assert_eq!(file_name_of("tools/cl/.."), None);
    assert_eq!(file_name_of(".."), None);
    assert_eq!(file_name_of("."), None);
    assert_eq!(file_name_of("/"), None);
    assert_eq!(file_name_of(""), None);
}

#[test]
fn msvc_names() {
    assert!(is_msvc_like_compiler("C:\\VS\\bin\\cl.exe"));
    assert!(is_msvc_like_compiler("cl"));
    assert!(is_msvc_like_compiler("/opt/llvm/clang-cl"));
    assert!(!is_msvc_like_compiler("/usr/bin/g++"));
    assert!(!is_msvc_like_compiler("cl.exe.bak"));
    assert!(is_msvc_like_compiler("tools/cl/"));
    assert!(is_msvc_like_compiler("tools/cl.exe/."));
    assert!(!is_msvc_like_compiler("tools/cl/.."));
    assert!(!is_msvc_like_compiler("CL.EXE"));
}

fn compiler_of(s: Strategy) -> Option<String> {
    match s {
        Strategy::Compiler(c) => Some(c),
        Strategy::EnvironmentVariable => None,
    }
}

#[test]
fn strategy_selection() {
    assert!(compiler_of(select_strategy(Platform::Windows, None)).is_none());
    assert!(compiler_of(select_strategy(Platform::Windows, Some("C:\\VS\\cl.exe"))).is_none());
    assert_eq!(
        compiler_of(select_strategy(Platform::Windows, Some("C:\\mingw\\g++.exe"))),
        Some("C:\\mingw\\g++.exe".to_string())
    );
    assert_eq!(compiler_of(select_strategy(Platform::Unix, None)), Some("/usr/bin/c++".to_string()));
    assert_eq!(compiler_of(select_strategy(Platform::Other, None)), Some("c++".to_string()));
    assert_eq!(compiler_of(select_strategy(Platform::Unix, Some("cl"))), Some("cl".to_string()));
    assert!(compiler_of(select_strategy(Platform::Windows, Some("tools/cl/"))).is_none());
    assert_eq!(
        compiler_of(select_strategy(Platform::Windows, Some("tools/cl/.."))),
        Some("tools/cl/..".to_string())
    );
}

#[test]
fn arguments_for_verbose_preprocessing() {
    assert_eq!(compiler_arguments(), strings(&["-v", "-E", "-x", "c++", "-"]));
}

#[test]
fn step_requests_compiler_run() {
    match get_include_dirs(Platform::Unix, None, None) {
        Step::Perform(Request::RunCompiler { program, args }) => {
            assert_eq!(program, "/usr/bin/c++");
            assert_eq!(args, strings(&["-v", "-E", "-x", "c++", "-"]));
        }
        _ => panic!("expected a compiler run"),
    }
}

#[test]
fn step_requests_variable_on_windows() {
    assert!(matches!(
        get_include_dirs(Platform::Windows, None, None),
        Step::Perform(Request::ReadIncludeVariable)
    ));
    assert!(matches!(
        get_include_dirs(Platform::Windows, None, Some(Reply::CompilerOutput(Ok(String::new())))),
        Step::Perform(Request::ReadIncludeVariable)
    ));
}

#[test]
fn step_end_to_end_compiler() {
    let text = "#include <...> search starts here:\n\
                /usr/include\n\
                /usr/local/include (framework directory)\n\
                End of search list.\n"
        .to_string();
    match get_include_dirs(Platform::Unix, None, Some(Reply::CompilerOutput(Ok(text)))) {
        Step::Done(r) => assert_eq!(r, Ok(strings(&["/usr/include", "/usr/local/include"]))),
        _ => panic!("expected an outcome"),
    }
}

#[test]
fn step_end_to_end_variable() {
    let reply = Reply::IncludeVariable(Some("C:\\foo;;C:\\bar\\baz".to_string()));
    match get_include_dirs(Platform::Windows, Some("cl.exe"), Some(reply)) {
        Step::Done(r) => assert_eq!(r, Ok(strings(&["C:/foo", "C:/bar/baz"]))),
        _ => panic!("expected an outcome"),
    }
    match get_include_dirs(Platform::Windows, None, Some(Reply::IncludeVariable(None))) {
        Step::Done(r) => assert_eq!(r, Err(IncludeDirsError::EnvironmentVariableMissing)),
        _ => panic!("expected an outcome"),
    }
}

#[test]
fn step_launch_failure() {
    let reply = Reply::CompilerOutput(Err("No such file or directory (os error 2)".to_string()));
    match get_include_dirs(Platform::Unix, Some("/nonexistent/c++"), Some(reply)) {
        Step::Done(r) => assert!(matches!(r, Err(IncludeDirsError::CompilerLaunchFailed(_)))),
        _ => panic!("expected an outcome"),
    }
}

#[test]
fn variable_round_trip() {
    let once = split_include_variable(";C:\\a\\b;;D:/c;");
    assert_eq!(once, strings(&["C:/a/b", "D:/c"]));
    assert_eq!(split_include_variable(&once.join(";")), once);
}

#[test]
fn plain_variable_pieces_unchanged() {
    assert_eq!(split_include_variable("/usr/a;;/usr/b"), strings(&["/usr/a", "/usr/b"]));
}
