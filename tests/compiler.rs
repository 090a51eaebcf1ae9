use vsbuild::compiler::{
    compile_args, compile_output, is_eol, join_flag, preprocess_args, preprocess_output,
    prepare_output, strip_echo, vs_identifier, Arg, CompilationTask, OutputKind,
    PreprocessResult, Scope, VsCompiler, VsToolchain,
};
use vsbuild::postprocess::FilterError;

fn check_prepare_output(original: &str, expected: &str, line: &str, success: bool) {
    let stream: Vec<u8> = original.as_bytes().to_vec();
    let result = prepare_output(line.as_bytes(), stream, success);
    assert_eq!(String::from_utf8_lossy(&result), expected);
}

#[test]
fn test_prepare_output_simple() {
    check_prepare_output(
        r#"BLABLABLA
foo.c : warning C4411: foo bar
"#,
        r#"foo.c : warning C4411: foo bar
"#,
        "BLABLABLA",
        true,
    );
}

#[test]
fn test_prepare_output_c4628_remove() {
    check_prepare_output(
        r#"BLABLABLA
foo.c(41) : warning C4411: foo bar
foo.c(42) : warning C4628: foo bar
foo.c(43) : warning C4433: foo bar
"#,
        r#"foo.c(41) : warning C4411: foo bar
foo.c(43) : warning C4433: foo bar
"#,
        "BLABLABLA",
        true,
    );
}

#[test]
fn test_prepare_output_c4628_keep() {
    check_prepare_output(
        r#"BLABLABLA
foo.c(41) : warning C4411: foo bar
foo.c(42) : warning C4628: foo bar
foo.c(43) : warning C4433: foo bar
"#,
        r#"foo.c(41) : warning C4411: foo bar
foo.c(42) : warning C4628: foo bar
foo.c(43) : warning C4433: foo bar
"#,
        "BLABLABLA",
        false,
    );
}

#[test]
fn echo_with_crlf_and_blank_lines_is_dropped() {
    let out = strip_echo(b"tmp.i", b"tmp.i\r\n\r\nerror\n".to_vec());
    assert_eq!(out, b"error\n".to_vec());
}

#[test]
fn other_first_line_is_kept() {
    let out = strip_echo(b"tmp.i", b"tmp.ix\nerror\n".to_vec());
    assert_eq!(out, b"tmp.ix\nerror\n".to_vec());
    // The name alone, with no end of line after it, is not an echo.
    assert_eq!(strip_echo(b"tmp.i", b"tmp.i".to_vec()), b"tmp.i".to_vec());
    // Leading line ends go even without an echo.
    assert_eq!(strip_echo(b"tmp.i", b"\n\nx".to_vec()), b"x".to_vec());
}

#[test]
fn prepare_output_twice_is_prepare_output_once() {
    let once = prepare_output(b"BLABLABLA", b"BLABLABLA\nfoo.c(42) : warning C4628: foo bar\nfoo.c : warning C4411: x\n".to_vec(), true);
    let twice = prepare_output(b"BLABLABLA", once.clone(), true);
    assert_eq!(once, b"foo.c : warning C4411: x\n".to_vec());
    assert_eq!(twice, once);
    let once = prepare_output(b"N", b"N\nfoo.c(42) : warning C4628: a\n".to_vec(), false);
    assert_eq!(prepare_output(b"N", once.clone(), false), once);
}

#[test]
fn repeated_echo_is_stripped_once_per_pass() {
    let once = prepare_output(b"N", b"N\nN\nx\n".to_vec(), false);
    assert_eq!(once, b"N\nx\n".to_vec());
}

#[test]
fn compile_output_keeps_warnings_on_failure() {
    let stdout = b"T.i\nfoo.c(42) : warning C4628: foo bar\n".to_vec();
    let failed = compile_output(b"T.i", Some(2), stdout.clone(), b"err".to_vec());
    assert_eq!(failed.status, Some(2));
    assert_eq!(failed.stdout, b"foo.c(42) : warning C4628: foo bar\n".to_vec());
    assert_eq!(failed.stderr, b"err".to_vec());
    let ok = compile_output(b"T.i", Some(0), stdout, Vec::new());
    assert_eq!(ok.stdout, Vec::<u8>::new());
}

#[test]
fn eol_bytes() {
    assert!(is_eol(b'\n'));
    assert!(is_eol(b'\r'));
    assert!(!is_eol(b' '));
}

#[test]
fn join_flag_glues() {
    assert_eq!(join_flag("/Fo", "out/a.obj"), "/Foout/a.obj");
}

fn flag(scope: Scope, name: &str) -> Arg {
    Arg::Flag { scope, flag: name.to_string() }
}

fn sample_task(input_pch: Option<&str>, output_pch: Option<&str>) -> CompilationTask {
    CompilationTask {
        args: vec![
            flag(Scope::Preprocessor, "showIncludes"),
            flag(Scope::Compiler, "O2"),
            Arg::Param { scope: Scope::Shared, flag: "D".to_string(), value: "X=1".to_string() },
            flag(Scope::Ignore, "MP"),
            Arg::Input { file: "a.cpp".to_string() },
            Arg::Output { kind: OutputKind::Object, file: "a.obj".to_string() },
        ],
        language: "p".to_string(),
        input_source: "a.cpp".to_string(),
        output_object: "a.obj".to_string(),
        input_precompiled: input_pch.map(|s| s.to_string()),
        output_precompiled: output_pch.map(|s| s.to_string()),
        marker_precompiled: None,
    }
}

#[test]
fn preprocess_command_line() {
    let args = preprocess_args(&sample_task(None, None));
    assert_eq!(
        args,
        vec!["/showIncludes", "/DX=1", "/nologo", "/Tp", "/E", "/we4002", "a.cpp", "/Foa.obj"]
    );
}

#[test]
fn compile_command_line_using_header() {
    let c = VsCompiler::new("tmp");
    let step = c.compile_prepare_step(sample_task(Some("a.pch"), None), b"x".to_vec());
    assert_eq!(step.args, vec!["/O2", "/DX=1", "/nologo", "/Tp", "/Yu", "/Fpa.pch"]);
    assert!(step.use_response);
    assert_eq!(step.preprocessed, b"x".to_vec());
    let full = compile_args(&step, "tmp/1.i");
    assert_eq!(
        full,
        vec!["/c", "/O2", "/DX=1", "/nologo", "/Tp", "/Yu", "/Fpa.pch", "tmp/1.i", "/Foa.obj", "/Fpa.pch"]
    );
}

#[test]
fn compile_command_line_creating_header() {
    let c = VsCompiler::new("tmp");
    let step = c.compile_prepare_step(sample_task(None, Some("b.pch")), Vec::new());
    assert_eq!(step.args, vec!["/showIncludes", "/O2", "/DX=1", "/nologo", "/Tp", "/Yc"]);
    let full = compile_args(&step, "t.i");
    assert_eq!(full, vec!["/c", "/showIncludes", "/O2", "/DX=1", "/nologo", "/Tp", "/Yc", "t.i", "/Foa.obj", "/Fpb.pch"]);
}

#[test]
fn scopes_partition_switches() {
    let task = sample_task(None, None);
    let pre = preprocess_args(&task);
    let c = VsCompiler::new("tmp");
    let step = c.compile_prepare_step(task, Vec::new());
    assert!(pre.contains(&"/showIncludes".to_string()) && !step.args.contains(&"/showIncludes".to_string()));
    assert!(!pre.contains(&"/O2".to_string()) && step.args.contains(&"/O2".to_string()));
    assert!(pre.contains(&"/DX=1".to_string()) && step.args.contains(&"/DX=1".to_string()));
    assert!(!pre.contains(&"/MP".to_string()) && !step.args.contains(&"/MP".to_string()));
}

#[test]
fn preprocess_output_paths() {
    let plain = preprocess_output(&sample_task(None, None), true, Some(0), b"int x;".to_vec(), Vec::new());
    assert!(matches!(plain, Ok(PreprocessResult::Success(ref b)) if b == b"int x;"));
    let failed = preprocess_output(&sample_task(None, None), false, Some(1), b"partial".to_vec(), b"e".to_vec());
    match failed {
        Ok(PreprocessResult::Failed(info)) => {
            assert_eq!(info.status, Some(1));
            assert!(info.stdout.is_empty());
            assert_eq!(info.stderr, b"e".to_vec());
        }
        _ => panic!("expected a failed run"),
    }
    let mut task = sample_task(None, Some("a.pch"));
    task.marker_precompiled = Some("h.h".to_string());
    let input = b"#line 1 \"a.cpp\"\n#line 1 \"h.h\"\nvoid f();\n#line 2 \"a.cpp\"\nint main;\n".to_vec();
    let created = preprocess_output(&task, true, Some(0), input.clone(), Vec::new());
    assert!(matches!(created, Ok(PreprocessResult::Success(ref b)) if b == b"#pragma hdrstop\n#line 2 \"a.cpp\"\nint main;\n"));
    let mut task = sample_task(Some("a.pch"), None);
    task.marker_precompiled = Some("h.h".to_string());
    let used = preprocess_output(&task, true, Some(0), input, Vec::new());
    assert!(matches!(used, Ok(PreprocessResult::Success(ref b)) if b == b"#line 1 \"a.cpp\"\n#line 1 \"h.h\"\nvoid f();\n#pragma hdrstop\n#line 2 \"a.cpp\"\nint main;\n"));
    let broken = preprocess_output(&task, true, Some(0), b"int x;".to_vec(), Vec::new());
    assert!(matches!(broken, Err(FilterError::UnexpectedEnd)));
}

#[test]
fn toolchains_are_resolved_once_per_path() {
    let mut c = VsCompiler::new("tmp");
    let a = c.resolve_toolchain("c:/vc/cl.exe");
    let b = c.resolve_toolchain("c:/other/cl.exe");
    let a2 = c.resolve_toolchain("c:/vc/cl.exe");
    assert_eq!((a, b, a2), (0, 1, 0));
    assert_eq!(c.toolchains.len(), 2);
    assert_eq!(c.toolchains[1].temp_dir, "tmp");
}

#[test]
fn identifier_is_looked_up_once() {
    let mut t = VsToolchain::new("cl.exe".to_string(), "tmp".to_string());
    assert!(t.identifier.is_none());
    assert_eq!(t.identifier(), None);
    assert_eq!(t.identifier, Some(None));
    t.identifier = Some(Some("19.0".to_string()));
    assert_eq!(t.identifier(), Some("19.0".to_string()));
    assert_eq!(vs_identifier("cl.exe"), None);
}
