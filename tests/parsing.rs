use get_system_include_dirs::{parse_include_dirs, IncludeDirsError};

fn strings(v: &[&str]) -> Vec<String> {
    v.iter().map(|s| s.to_string()).collect()
}

#[test]
fn section_lines_listed_in_order() {
    let text = "Using built-in specs.\n\
                /not/a/dir\n\
                #include \"...\" search starts here:\n\
                #include <...> search starts here:\n\
                 /usr/lib/gcc/x86_64-linux-gnu/11/include\n\
                 /usr/local/include\n\
                 /usr/include/x86_64-linux-gnu\n\
                 /usr/include\n\
                End of search list.\n\
                /after/the/end\n";
    let r = parse_include_dirs(text).unwrap();
    assert_eq!(
        r,
        strings(&[
            "/usr/lib/gcc/x86_64-linux-gnu/11/include",
            "/usr/local/include",
            "/usr/include/x86_64-linux-gnu",
            "/usr/include",
        ])
    );
}

#[test]
fn missing_start_marker_fails() {
    let text = "/usr/include\n/usr/local/include\nEnd of search list.\n";
    assert_eq!(parse_include_dirs(text), Err(IncludeDirsError::NoIncludeDirectoriesFound));
    assert_eq!(parse_include_dirs(""), Err(IncludeDirsError::NoIncludeDirectoriesFound));
}

#[test]
fn empty_section_fails() {
    let text = "#include <...> search starts here:\nEnd of search list.\n/usr/include\n";
    assert_eq!(parse_include_dirs(text), Err(IncludeDirsError::NoIncludeDirectoriesFound));
}

#[test]
fn blank_lines_only_section_fails() {
    let text = "#include <...> search starts here:\n\n   \n (framework directory)\nEnd of search list.\n";
    assert_eq!(parse_include_dirs(text), Err(IncludeDirsError::NoIncludeDirectoriesFound));
}

#[test]
fn annotation_is_stripped() {
    let text = "#include <...> search starts here:\n\
                /usr/include/c++/11 (framework directory)\n\
                /usr/include/plain\n\
                End of search list.\n";
    assert_eq!(
        parse_include_dirs(text).unwrap(),
        strings(&["/usr/include/c++/11", "/usr/include/plain"])
    );
}

#[test]
fn annotation_cut_starts_at_first_parenthesis() {
    let text = "#include <...> search starts here:\n\
                /opt/a(b)/c (framework directory)\n\
                /opt/x (y)/z\n\
                End of search list.\n";
    assert_eq!(parse_include_dirs(text).unwrap(), strings(&["/opt/a", "/opt/x (y)/z"]));
}

#[test]
fn backslashes_become_slashes() {
    let text = "#include <...> search starts here:\n C:\\mingw\\include\n End of search list.";
    assert_eq!(parse_include_dirs(text).unwrap(), strings(&["C:/mingw/include"]));
}

#[test]
fn end_to_end_framework_output() {
    let text = "clang version 15.0.0\n\
                #include <...> search starts here:\n\
                /usr/include\n\
                /usr/local/include (framework directory)\n\
                End of search list.\n";
    assert_eq!(
        parse_include_dirs(text).unwrap(),
        strings(&["/usr/include", "/usr/local/include"])
    );
}

#[test]
fn carriage_returns_and_tabs_are_trimmed() {
    let text = "#include <...> search starts here:\r\n\t/usr/include  \r\n\r\nEnd of search list.\r\n";
    assert_eq!(parse_include_dirs(text).unwrap(), strings(&["/usr/include"]));
}

#[test]
fn end_marker_before_start_is_ignored() {
    let text = "End of search list.\n#include <...> search starts here:\n/a\nEnd of search list.\n/b\n";
    assert_eq!(parse_include_dirs(text).unwrap(), strings(&["/a"]));
}

#[test]
fn unterminated_section_keeps_entries() {
    let text = "#include <...> search starts here:\n/a\n/a\n";
    assert_eq!(parse_include_dirs(text).unwrap(), strings(&["/a", "/a"]));
}

#[test]
fn normalized_path_is_unchanged() {
    let text = "#include <...> search starts here:\nC:/already/normal\nEnd of search list.\n";
    let once = parse_include_dirs(text).unwrap();
    assert_eq!(once, strings(&["C:/already/normal"]));
    let again = format!("#include <...> search starts here:\n{}\nEnd of search list.\n", once[0]);
    assert_eq!(parse_include_dirs(&again).unwrap(), once);
}
