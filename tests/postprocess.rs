use vsbuild::postprocess::{filter_preprocessed, FilterError};

#[test]
fn test_filter_precompiled_keep() {
    let filtered = filter_preprocessed(
        br#"#line 1 "sample.cpp"
#line 1 "e:/work/octobuild/test_cl/sample header.h"
# pragma once
void hello();
#line 2 "sample.cpp"

int main(int argc, char **argv) {
	return 0;
}
"#,
        &Some("sample header.h".to_string()),
        true,
    );
    assert_eq!(
        String::from_utf8_lossy(filtered.unwrap().as_slice()),
        r#"#line 1 "sample.cpp"
#line 1 "e:/work/octobuild/test_cl/sample header.h"
# pragma once
void hello();
#pragma hdrstop
#line 2 "sample.cpp"

int main(int argc, char **argv) {
	return 0;
}
"#
    );
}

#[test]
fn test_filter_precompiled_remove() {
    let filtered = filter_preprocessed(
        br#"#line 1 "sample.cpp"
#line 1 "e:/work/octobuild/test_cl/sample header.h"
# pragma once
void hello1();
void hello2();
#line 2 "sample.cpp"

int main(int argc, char **argv) {
	return 0;
}
"#,
        &Some("sample header.h".to_string()),
        false,
    );
    assert_eq!(
        String::from_utf8_lossy(filtered.unwrap().as_slice()),
        r#"#pragma hdrstop
#line 2 "sample.cpp"

int main(int argc, char **argv) {
	return 0;
}
"#
    );
}

#[test]
fn test_filter_precompiled_hdrstop() {
    let filtered = filter_preprocessed(
        br#"#line 1 "sample.cpp"
 #line 1 "e:/work/octobuild/test_cl/sample header.h"
void hello();
# pragma  hdrstop
void data();
# pragma once
#line 2 "sample.cpp"

int main(int argc, char **argv) {
	return 0;
}
"#,
        &None,
        false,
    );
    assert_eq!(
        String::from_utf8_lossy(filtered.unwrap().as_slice()),
        r#"# pragma  hdrstop
void data();
# pragma once
#line 2 "sample.cpp"

int main(int argc, char **argv) {
	return 0;
}
"#
    );
}

#[test]
fn test_filter_precompiled_xxx() {
    let filtered = filter_preprocessed(
        br#"#line 1 "sample.cpp"
#line 1 "e:\\work\\octobuild\\test_cl\\sample header.h"
# pragma once
void hello();
#line 2 "sample.cpp"

int main(int argc, char **argv) {
	return 0;
}
"#,
        &Some("e:\\work\\octobuild\\test_cl\\sample header.h".to_string()),
        true,
    );
    assert_eq!(
        String::from_utf8_lossy(filtered.unwrap().as_slice()),
        r#"#line 1 "sample.cpp"
#line 1 "e:\\work\\octobuild\\test_cl\\sample header.h"
# pragma once
void hello();
#pragma hdrstop
#line 2 "sample.cpp"

int main(int argc, char **argv) {
	return 0;
}
"#
    );
}

const TWO_HELLOS: &[u8] = b"#line 1 \"sample.cpp\"\n#line 1 \"e:/work/sample header.h\"\n# pragma once\nvoid hello1();\nvoid hello2();\n#line 2 \"sample.cpp\"\nint main() {}\n";

#[test]
fn consumer_mode_inserts_hdrstop_before_return_to_entry() {
    let out = filter_preprocessed(TWO_HELLOS, &Some("sample header.h".to_string()), true).unwrap();
    let expected = b"#line 1 \"sample.cpp\"\n#line 1 \"e:/work/sample header.h\"\n# pragma once\nvoid hello1();\nvoid hello2();\n#pragma hdrstop\n#line 2 \"sample.cpp\"\nint main() {}\n";
    assert_eq!(out, expected.to_vec());
}

#[test]
fn creator_mode_keeps_only_the_tail() {
    let out = filter_preprocessed(TWO_HELLOS, &Some("sample header.h".to_string()), false).unwrap();
    assert_eq!(out, b"#pragma hdrstop\n#line 2 \"sample.cpp\"\nint main() {}\n".to_vec());
}

#[test]
fn marker_matches_backslash_path_suffix() {
    let input = b"#line 1 \"a.cpp\"\n#line 1 \"c:\\\\inc\\\\sample header.h\"\nx\n#line 3 \"a.cpp\"\ny\n";
    let out = filter_preprocessed(input, &Some("inc/sample header.h".to_string()), false).unwrap();
    assert_eq!(out, b"#pragma hdrstop\n#line 3 \"a.cpp\"\ny\n".to_vec());
}

#[test]
fn marker_that_is_not_a_whole_component_does_not_match() {
    let input = b"#line 1 \"a.cpp\"\n#line 1 \"inc/xsample.h\"\nx\n#line 3 \"a.cpp\"\ny\n";
    let out = filter_preprocessed(input, &Some("sample.h".to_string()), true);
    assert_eq!(out, Err(FilterError::UnexpectedEnd));
}

#[test]
fn input_without_boundary_is_an_error() {
    let out = filter_preprocessed(b"#line 1 \"a.cpp\"\nint x;\n", &None, true);
    assert_eq!(out, Err(FilterError::UnexpectedEnd));
}

#[test]
fn truncated_directive_is_an_error() {
    let out = filter_preprocessed(b"#line 1 \"a.c", &None, true);
    assert_eq!(out, Err(FilterError::UnexpectedEnd));
    assert_eq!(filter_preprocessed(b"", &None, false), Err(FilterError::UnexpectedEnd));
}

#[test]
fn quoted_escapes_are_resolved_in_file_names() {
    // The entry file is written once with an escaped quote and once plainly.
    let input = b"#line 1 \"a\\\"b.c\"\n#line 1 \"h.h\"\n#line 2 \"a\\x22b.c\"\n#line 3 \"a\\\"b.c\"\nz\n";
    let out = filter_preprocessed(input, &Some("h.h".to_string()), false).unwrap();
    assert_eq!(out, b"#pragma hdrstop\n#line 3 \"a\\\"b.c\"\nz\n".to_vec());
}

#[test]
fn hash_inside_a_line_is_not_a_directive() {
    let input = b"int a; #pragma hdrstop\n#pragma hdrstop\nrest";
    let out = filter_preprocessed(input, &None, false).unwrap();
    assert_eq!(out, b"#pragma hdrstop\nrest".to_vec());
}

#[test]
fn output_is_input_with_one_line_inserted() {
    let out = filter_preprocessed(TWO_HELLOS, &Some("sample header.h".to_string()), true).unwrap();
    let line = b"#pragma hdrstop\n";
    let k = out.windows(line.len()).position(|w| w == line).unwrap();
    let mut rebuilt = out[..k].to_vec();
    rebuilt.extend_from_slice(&out[k + line.len()..]);
    assert_eq!(rebuilt, TWO_HELLOS.to_vec());
}
