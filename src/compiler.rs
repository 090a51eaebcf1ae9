//! The two compiler phases: the command lines of each, what becomes of the
//! preprocessor's output, and the clean-up of the compiler's diagnostics.
use crate::postprocess::{
    bytes_view, filter_preprocessed, filter_spec, is_line_end, name_bytes, FilterError, CR, LF,
};
use vstd::prelude::*;
use vstd::string::StringExecFns;

verus! {

/// In which phase an argument of the original command line is passed on.
#[derive(Debug, Clone, Copy, PartialEq, Eq, Structural)]
pub enum Scope {
    Preprocessor,
    Compiler,
    Shared,
    Ignore,
}

#[derive(Debug, Clone, Copy, PartialEq, Eq, Structural)]
pub enum OutputKind {
    Object,
    PrecompiledCreate,
    PrecompiledUse,
}

/// One argument of the original command line.
pub enum Arg {
    /// A switch without a value (`/nologo`), stored without its `/`.
    Flag { scope: Scope, flag: String },
    /// A switch with a value glued to it (`/Fp<path>`).
    Param { scope: Scope, flag: String, value: String },
    Input { file: String },
    Output { kind: OutputKind, file: String },
}

/// Whether an argument of the given scope goes to the preprocessor.
pub open spec fn in_preprocess(scope: Scope) -> bool {
    scope == Scope::Preprocessor || scope == Scope::Shared
}

/// Whether an argument of the given scope goes to the compiler; `creating`
/// tells whether a precompiled header is being produced, which takes the
/// preprocessor's arguments too.
pub open spec fn in_compile(scope: Scope, creating: bool) -> bool {
    scope == Scope::Compiler || scope == Scope::Shared || (scope == Scope::Preprocessor
        && creating)
}

pub open spec fn selected(scope: Scope, compile: bool, creating: bool) -> bool {
    if compile {
        in_compile(scope, creating)
    } else {
        in_preprocess(scope)
    }
}

/// The scope of a switch and how it is written on a command line.
pub open spec fn arg_text(a: Arg) -> Option<(Scope, Seq<char>)> {
    match a {
        Arg::Flag { scope, flag } => Some((scope, seq!['/'] + flag@)),
        Arg::Param { scope, flag, value } => Some((scope, seq!['/'] + flag@ + value@)),
        _ => None,
    }
}

/// The scope of a switch.
pub open spec fn switch_scope(a: Arg) -> Scope {
    let (scope, _) = arg_text(a)->0;
    scope
}

/// A switch as written.
pub open spec fn switch_text(a: Arg) -> Seq<char> {
    let (_, text) = arg_text(a)->0;
    text
}

/// The switches of `args` that a phase takes, in order, as written.
pub open spec fn rendered(args: Seq<Arg>, compile: bool, creating: bool) -> Seq<Seq<char>>
    decreases args.len(),
{
    if args.len() == 0 {
        Seq::empty()
    } else {
        let before = rendered(args.drop_last(), compile, creating);
        match arg_text(args.last()) {
            Some((scope, text)) => if selected(scope, compile, creating) {
                before.push(text)
            } else {
                before
            },
            None => before,
        }
    }
}

pub open spec fn strings_view(v: Seq<String>) -> Seq<Seq<char>> {
    v.map_values(|s: String| s@)
}

fn scope_selected(scope: Scope, compile: bool, creating: bool) -> (r: bool)
    ensures
        r == selected(scope, compile, creating),
{
    if compile {
        scope == Scope::Compiler || scope == Scope::Shared || (scope == Scope::Preprocessor
            && creating)
    } else {
        scope == Scope::Preprocessor || scope == Scope::Shared
    }
}

/// The switches of `args` that a phase takes, written out.
fn render_args(args: &Vec<Arg>, compile: bool, creating: bool) -> (r: Vec<String>)
    ensures
        strings_view(r@) == rendered(args@, compile, creating),
{
    let mut out: Vec<String> = Vec::new();
    let mut i: usize = 0;
    while i < args.len()
        invariant
            i <= args@.len(),
            strings_view(out@) == rendered(args@.take(i as int), compile, creating),
        decreases args@.len() - i,
    {
        assert(args@.take(i + 1).drop_last() =~= args@.take(i as int));
        assert(args@.take(i + 1).last() == args@[i as int]);
        let ghost o0 = out@;
        match &args[i] {
            Arg::Flag { scope, flag } => {
                if scope_selected(*scope, compile, creating) {
                    let mut s = String::from_str("/");
                    proof {
                        reveal_strlit("/");
                    }
                    assert(s@ =~= seq!['/']);
                    s.append(flag.as_str());
                    out.push(s);
                    assert(strings_view(out@) =~= strings_view(o0).push(seq!['/'] + flag@));
                }
            },
            Arg::Param { scope, flag, value } => {
                if scope_selected(*scope, compile, creating) {
                    let mut s = String::from_str("/");
                    proof {
                        reveal_strlit("/");
                    }
                    assert(s@ =~= seq!['/']);
                    s.append(flag.as_str());
                    s.append(value.as_str());
                    out.push(s);
                    assert(strings_view(out@) =~= strings_view(o0).push(seq!['/'] + flag@ + value@));
                }
            },
            _ => {},
        }
        assert(strings_view(out@) =~= rendered(args@.take(i + 1), compile, creating));
        i = i + 1;
    }
    assert(args@.take(args@.len() as int) =~= args@);
    out
}

/// A compilation as the command line described it. Paths are kept as text.
/// At most one of `input_precompiled` (a header to use) and
/// `output_precompiled` (a header to create) is set, and `marker_precompiled`
/// only together with one of them.
pub struct CompilationTask {
    pub args: Vec<Arg>,
    pub language: String,
    pub input_source: String,
    pub output_object: String,
    pub input_precompiled: Option<String>,
    pub output_precompiled: Option<String>,
    pub marker_precompiled: Option<String>,
}

impl CompilationTask {
    pub open spec fn wf(&self) -> bool {
        &&& !(self.input_precompiled is Some && self.output_precompiled is Some)
        &&& self.marker_precompiled is Some ==> (self.input_precompiled is Some
            || self.output_precompiled is Some)
    }

    /// Whether a precompiled header is used or created.
    pub open spec fn uses_precompiled(&self) -> bool {
        self.input_precompiled is Some || self.output_precompiled is Some
    }
}

/// What a run of the compiler left: its exit code, if any, and its output.
pub struct OutputInfo {
    pub status: Option<i32>,
    pub stdout: Vec<u8>,
    pub stderr: Vec<u8>,
}

/// The outcome of the preprocess phase: the preprocessed source, or the
/// failed run.
pub enum PreprocessResult {
    Success(Vec<u8>),
    Failed(OutputInfo),
}

/// Everything the compile phase needs, consumed once.
pub struct CompileStep {
    pub task: CompilationTask,
    pub preprocessed: Vec<u8>,
    pub args: Vec<String>,
    pub use_response: bool,
}

/// `/<name><value>` for an optional value: nothing when it is absent.
pub open spec fn optional_flag(name: Seq<char>, value: Option<String>) -> Seq<Seq<char>> {
    match value {
        Some(v) => seq![name + v@],
        None => Seq::empty(),
    }
}

/// The preprocessor's command line for a task.
pub open spec fn preprocess_command(t: CompilationTask) -> Seq<Seq<char>> {
    rendered(t.args@, false, false) + seq![
        "/nologo"@,
        "/T"@ + t.language@,
        "/E"@,
        "/we4002"@,
        t.input_source@,
        "/Fo"@ + t.output_object@,
    ]
}

/// The compiler's arguments for a task, before the input and output paths.
pub open spec fn compile_prepare_command(t: CompilationTask) -> Seq<Seq<char>> {
    rendered(t.args@, true, t.output_precompiled is Some) + seq!["/nologo"@, "/T"@ + t.language@]
        + (if t.input_precompiled is Some {
        seq!["/Yu"@] + optional_flag("/Fp"@, t.input_precompiled)
    } else {
        Seq::empty()
    }) + (if t.output_precompiled is Some {
        seq!["/Yc"@]
    } else {
        Seq::empty()
    })
}

/// The compiler's whole command line for a step whose preprocessed source
/// was written to `input`.
pub open spec fn compile_command(step: CompileStep, input: Seq<char>) -> Seq<Seq<char>> {
    seq!["/c"@] + strings_view(step.args@) + seq![input, "/Fo"@ + step.task.output_object@]
        + optional_flag("/Fp"@, step.task.output_precompiled) + optional_flag(
        "/Fp"@,
        step.task.input_precompiled,
    )
}

/// A switch with its value glued to it.
pub fn join_flag(flag: &str, path: &str) -> (r: String)
    ensures
        r@ == flag@ + path@,
{
    let mut r = String::from_str(flag);
    r.append(path);
    r
}

/// Appends `/<name><value>` when the value is present.
fn push_optional_flag(out: &mut Vec<String>, name: &str, value: &Option<String>)
    ensures
        strings_view(final(out)@) == strings_view(old(out)@) + optional_flag(name@, *value),
{
    let ghost o0 = out@;
    match value {
        Some(v) => {
            out.push(join_flag(name, v.as_str()));
        },
        None => {},
    }
    assert(strings_view(out@) =~= strings_view(o0) + optional_flag(name@, *value));
}

fn push_str(out: &mut Vec<String>, s: &str)
    ensures
        strings_view(final(out)@) == strings_view(old(out)@).push(s@),
{
    let ghost o0 = out@;
    out.push(String::from_str(s));
    assert(strings_view(out@) =~= strings_view(o0).push(s@));
}

/// The preprocessor's command line: the preprocessor's switches of the
/// task, then `/nologo`, `/T<language>`, `/E`, `/we4002` (too many macro
/// arguments is an error), the source, and `/Fo<object>` (where `#import`
/// puts what it generates).
pub fn preprocess_args(task: &CompilationTask) -> (r: Vec<String>)
    ensures
        strings_view(r@) == preprocess_command(*task),
{
    let mut args = render_args(&task.args, false, false);
    push_str(&mut args, "/nologo");
    let lang = join_flag("/T", task.language.as_str());
    push_str(&mut args, lang.as_str());
    push_str(&mut args, "/E");
    push_str(&mut args, "/we4002");
    push_str(&mut args, task.input_source.as_str());
    let fo = join_flag("/Fo", task.output_object.as_str());
    push_str(&mut args, fo.as_str());
    assert(strings_view(args@) =~= preprocess_command(*task));
    args
}

/// The outcome of the preprocess phase, from its run: on success the
/// preprocessed source, passed through the header filter when a
/// precompiled header is used (headers kept) or created (headers dropped);
/// on failure the exit code and the error output, the partial source being
/// dropped.
pub fn preprocess_output(
    task: &CompilationTask,
    success: bool,
    status: Option<i32>,
    stdout: Vec<u8>,
    stderr: Vec<u8>,
) -> (r: Result<PreprocessResult, FilterError>)
    ensures
        success ==> match r {
            Ok(PreprocessResult::Success(out)) => if task.uses_precompiled() {
                filter_spec(
                    stdout@,
                    name_bytes(task.marker_precompiled),
                    task.output_precompiled is None,
                ) == Some(out@)
            } else {
                out@ == stdout@
            },
            Ok(PreprocessResult::Failed(_)) => false,
            Err(_) => task.uses_precompiled() && filter_spec(
                stdout@,
                name_bytes(task.marker_precompiled),
                task.output_precompiled is None,
            ) is None,
        },
        !success ==> (r matches Ok(PreprocessResult::Failed(info)) && info.status == status
            && info.stdout@.len() == 0 && info.stderr@ == stderr@),
{
    if success {
        if task.input_precompiled.is_some() || task.output_precompiled.is_some() {
            let content = filter_preprocessed(
                stdout.as_slice(),
                &task.marker_precompiled,
                task.output_precompiled.is_none(),
            )?;
            Ok(PreprocessResult::Success(content))
        } else {
            Ok(PreprocessResult::Success(stdout))
        }
    } else {
        Ok(PreprocessResult::Failed(OutputInfo { status, stdout: Vec::new(), stderr }))
    }
}

/// The compiler's whole command line for a step whose preprocessed source
/// was written to `input`: `/c`, the step's arguments, the input,
/// `/Fo<object>`, then `/Fp<header>` for a header created and for one used.
pub fn compile_args(step: &CompileStep, input: &str) -> (r: Vec<String>)
    ensures
        strings_view(r@) == compile_command(*step, input@),
{
    let mut args: Vec<String> = Vec::new();
    push_str(&mut args, "/c");
    let mut i: usize = 0;
    while i < step.args.len()
        invariant
            i <= step.args@.len(),
            strings_view(args@) == seq!["/c"@] + strings_view(step.args@.take(i as int)),
        decreases step.args@.len() - i,
    {
        push_str(&mut args, step.args[i].as_str());
        assert(strings_view(step.args@.take(i + 1)) =~= strings_view(step.args@.take(i as int)).push(
            step.args@[i as int]@,
        ));
        i = i + 1;
    }
    assert(step.args@.take(step.args@.len() as int) =~= step.args@);
    push_str(&mut args, input);
    let fo = join_flag("/Fo", step.task.output_object.as_str());
    push_str(&mut args, fo.as_str());
    push_optional_flag(&mut args, "/Fp", &step.task.output_precompiled);
    push_optional_flag(&mut args, "/Fp", &step.task.input_precompiled);
    assert(strings_view(args@) =~= compile_command(*step, input@));
    args
}

/// The warning that the compile phase drops from successful runs (a
/// conversion operator redefined), one whole line per match.
pub const C4628_WARNING: &'static str = r"(?m)^\S+[^:]*\(\d+\) : warning C4628: .*$\n?";

/// What deleting every match of a regular expression leaves of a text;
/// `None` when the pattern does not compile.
pub uninterp spec fn matches_deleted(pattern: Seq<char>, text: Seq<u8>) -> Option<Seq<u8>>;

/// Relies on regex::bytes::Regex::new, which returns an error for a pattern
/// that does not compile, and on Regex::replace_all with NoExpand(b""), which
/// deletes every non-overlapping match: the result depends on the pattern and
/// the text alone.
#[verifier::external_body]
fn delete_matches(pattern: &str, text: &[u8]) -> (r: Option<Vec<u8>>)
    ensures
        bytes_view(r) == matches_deleted(pattern@, text@),
{
    match regex::bytes::Regex::new(pattern) {
        Ok(re) => Some(re.replace_all(text, regex::bytes::NoExpand(b"")).into_owned()),
        Err(_) => None,
    }
}

/// Whether a byte ends a line.
pub fn is_eol(c: u8) -> (r: bool)
    ensures
        r == is_line_end(c),
{
    c == LF || c == CR
}

/// The length of the echoed input name that opens `buf`: the name `line`
/// followed by an end of line, or nothing.
pub open spec fn echo_len(line: Seq<u8>, buf: Seq<u8>) -> int {
    if line.len() < buf.len() && buf.take(line.len() as int) == line && is_line_end(
        buf[line.len() as int],
    ) {
        line.len() as int
    } else {
        0
    }
}

/// First index at or after `i` whose byte does not end a line.
pub open spec fn line_ends_end(buf: Seq<u8>, i: int) -> int
    decreases buf.len() - i,
{
    if 0 <= i < buf.len() && is_line_end(buf[i]) {
        line_ends_end(buf, i + 1)
    } else {
        i
    }
}

/// `buf` without the echoed input name and the line ends that follow.
pub open spec fn without_echo(line: Seq<u8>, buf: Seq<u8>) -> Seq<u8> {
    buf.skip(line_ends_end(buf, echo_len(line, buf)))
}

/// The compiler's cleaned-up output: without the echoed name, and on
/// success without the C4628 warnings.
pub open spec fn prepared_output(line: Seq<u8>, buf: Seq<u8>, success: bool) -> Seq<u8> {
    let b = without_echo(line, buf);
    if success {
        match matches_deleted(C4628_WARNING@, b) {
            Some(v) => v,
            None => b,
        }
    } else {
        b
    }
}

/// Whether `b` starts with `p`.
fn has_prefix(b: &[u8], p: &[u8]) -> (r: bool)
    ensures
        r == (p@.len() <= b@.len() && b@.take(p@.len() as int) == p@),
{
    if p.len() > b.len() {
        return false;
    }
    let mut i: usize = 0;
    while i < p.len()
        invariant
            p@.len() <= b@.len(),
            i <= p@.len(),
            forall|k: int| 0 <= k < i ==> b@[k] == p@[k],
        decreases p@.len() - i,
    {
        if b[i] != p[i] {
            assert(b@.take(p@.len() as int)[i as int] != p@[i as int]);
            return false;
        }
        i = i + 1;
    }
    assert(b@.take(p@.len() as int) =~= p@);
    true
}

/// Drops the input name that the compiler echoes on the first line of its
/// output, and the line ends that follow it.
pub fn strip_echo(line: &[u8], buffer: Vec<u8>) -> (r: Vec<u8>)
    ensures
        r@ == without_echo(line@, buffer@),
{
    let mut buffer = buffer;
    let mut begin: usize = if line.len() < buffer.len() && has_prefix(buffer.as_slice(), line)
        && is_eol(buffer[line.len()]) {
        line.len()
    } else {
        0
    };
    let ghost start = begin as int;
    assert(start == echo_len(line@, buffer@));
    while begin < buffer.len() && is_eol(buffer[begin])
        invariant
            start <= begin <= buffer@.len(),
            line_ends_end(buffer@, start) == line_ends_end(buffer@, begin as int),
        decreases buffer@.len() - begin,
    {
        begin = begin + 1;
    }
    buffer.split_off(begin)
}

/// The compiler's output with the echoed input name `line` dropped, and, on
/// success, every C4628 warning line deleted; on failure the warnings stay.
pub fn prepare_output(line: &[u8], buffer: Vec<u8>, success: bool) -> (r: Vec<u8>)
    ensures
        r@ == prepared_output(line@, buffer@, success),
{
    let stripped = strip_echo(line, buffer);
    if success {
        match delete_matches(C4628_WARNING, stripped.as_slice()) {
            Some(v) => v,
            None => stripped,
        }
    } else {
        stripped
    }
}

proof fn lemma_line_ends_end(buf: Seq<u8>, i: int)
    requires
        0 <= i <= buf.len(),
    ensures
        i <= line_ends_end(buf, i) <= buf.len(),
        line_ends_end(buf, i) < buf.len() ==> !is_line_end(buf[line_ends_end(buf, i)]),
    decreases buf.len() - i,
{
    if i < buf.len() && is_line_end(buf[i]) {
        lemma_line_ends_end(buf, i + 1);
    }
}

/// Cleaning up output that failed to compile a second time changes nothing,
/// unless what the first pass left opens again with the echoed name on a
/// line of its own.
pub proof fn lemma_prepare_output_idempotent(line: Seq<u8>, buf: Seq<u8>)
    requires
        echo_len(line, prepared_output(line, buf, false)) == 0,
    ensures
        prepared_output(line, prepared_output(line, buf, false), false) == prepared_output(
            line,
            buf,
            false,
        ),
{
    let k = echo_len(line, buf);
    lemma_line_ends_end(buf, k);
    let b = prepared_output(line, buf, false);
    assert(line_ends_end(b, 0) == 0);
    assert(b.skip(0) =~= b);
}

/// The compile phase's outcome, from the compiler's run on the temporary
/// file named `temp_name`: the exit code and error output as they were, the
/// output cleaned up, dropping C4628 warnings only when the exit code is 0.
pub fn compile_output(temp_name: &[u8], status: Option<i32>, stdout: Vec<u8>, stderr: Vec<u8>) -> (r:
    OutputInfo)
    ensures
        r.status == status,
        r.stdout@ == prepared_output(temp_name@, stdout@, status == Some(0i32)),
        r.stderr == stderr,
{
    let success = match status {
        Some(code) => code == 0,
        None => false,
    };
    OutputInfo { status, stdout: prepare_output(temp_name, stdout, success), stderr }
}

/// The version banner of the compiler at `path`. Nothing probes the
/// compiler for it, so it is unknown: callers go on without it.
pub fn vs_identifier(path: &str) -> (r: Option<String>)
    ensures
        r is None,
{
    None
}

/// One compiler found on disk: its path, where its temporary files go, and
/// its version banner once asked for.
pub struct VsToolchain {
    pub temp_dir: String,
    pub path: String,
    /// `None` until the banner was asked for, then what was found.
    pub identifier: Option<Option<String>>,
}

impl VsToolchain {
    pub fn new(path: String, temp_dir: String) -> (r: Self)
        ensures
            r.path == path,
            r.temp_dir == temp_dir,
            r.identifier is None,
    {
        VsToolchain { temp_dir, path, identifier: None }
    }

    /// The version banner, looked up on the first call only: later calls
    /// return what the first one found.
    pub fn identifier(&mut self) -> (r: Option<String>)
        ensures
            final(self).path == old(self).path,
            final(self).temp_dir == old(self).temp_dir,
            final(self).identifier == Some(r),
            old(self).identifier matches Some(v) ==> r == v,
            old(self).identifier is None ==> r is None,
    {
        match &self.identifier {
            Some(v) => {
                return match v {
                    Some(s) => Some(s.clone()),
                    None => None,
                };
            },
            None => {},
        }
        let found = vs_identifier(self.path.as_str());
        let kept = match &found {
            Some(s) => Some(s.clone()),
            None => None,
        };
        self.identifier = Some(kept);
        found
    }
}

/// The MSVC driver: where temporary files go, and the compilers found so
/// far, one per path.
pub struct VsCompiler {
    pub temp_dir: String,
    pub toolchains: Vec<VsToolchain>,
}

impl VsCompiler {
    pub fn new(temp_dir: &str) -> (r: Self)
        ensures
            r.temp_dir@ == temp_dir@,
            r.toolchains@.len() == 0,
    {
        VsCompiler { temp_dir: String::from_str(temp_dir), toolchains: Vec::new() }
    }

    /// The index of the toolchain for the compiler at `program`: the first
    /// one known with that path, or else a new one added at the end.
    pub fn resolve_toolchain(&mut self, program: &str) -> (r: usize)
        ensures
            final(self).temp_dir == old(self).temp_dir,
            r < final(self).toolchains@.len(),
            final(self).toolchains@[r as int].path@ == program@,
            forall|k: int| 0 <= k < r && k < old(self).toolchains@.len()
                ==> old(self).toolchains@[k].path@ != program@,
            r < old(self).toolchains@.len() ==> final(self).toolchains@ == old(self).toolchains@,
            r == old(self).toolchains@.len() ==> {
                let added = final(self).toolchains@[r as int];
                &&& final(self).toolchains@ == old(self).toolchains@.push(added)
                &&& added.temp_dir == old(self).temp_dir
                &&& added.identifier is None
            },
    {
        let wanted = String::from_str(program);
        let mut i: usize = 0;
        while i < self.toolchains.len()
            invariant
                i <= self.toolchains@.len(),
                self == old(self),
                wanted@ == program@,
                forall|k: int| 0 <= k < i ==> self.toolchains@[k].path@ != program@,
            decreases self.toolchains@.len() - i,
        {
            if self.toolchains[i].path == wanted {
                return i;
            }
            i = i + 1;
        }
        let toolchain = VsToolchain::new(wanted, self.temp_dir.clone());
        self.toolchains.push(toolchain);
        i
    }

    /// The compile phase of a task, with its preprocessed source: the
    /// compiler's switches of the task (the preprocessor's too when a
    /// precompiled header is created), `/nologo`, `/T<language>`, then
    /// `/Yu /Fp<header>` to use a precompiled header or `/Yc` to create one.
    pub fn compile_prepare_step(&self, task: CompilationTask, preprocessed: Vec<u8>) -> (r:
        CompileStep)
        ensures
            r.task == task,
            r.preprocessed == preprocessed,
            strings_view(r.args@) == compile_prepare_command(task),
            r.use_response,
    {
        let mut args = render_args(&task.args, true, task.output_precompiled.is_some());
        push_str(&mut args, "/nologo");
        let lang = join_flag("/T", task.language.as_str());
        push_str(&mut args, lang.as_str());
        if task.input_precompiled.is_some() {
            push_str(&mut args, "/Yu");
            push_optional_flag(&mut args, "/Fp", &task.input_precompiled);
        }
        if task.output_precompiled.is_some() {
            push_str(&mut args, "/Yc");
        }
        assert(strings_view(args@) =~= compile_prepare_command(task));
        CompileStep { task, preprocessed, args, use_response: true }
    }
}

/// Each switch of the command line reaches the phases that its scope
/// names, once, in its place: an ignored one neither, a shared one both, a
/// preprocessor one the preprocessor (and the compiler too when a
/// precompiled header is created), a compiler one the compiler alone.
pub proof fn lemma_scope_partition(args: Seq<Arg>, a: Arg, creating: bool)
    requires
        arg_text(a) is Some,
    ensures
        rendered(args.push(a), false, creating) == rendered(args, false, creating) + if in_preprocess(
            switch_scope(a),
        ) {
            seq![switch_text(a)]
        } else {
            Seq::empty()
        },
        rendered(args.push(a), true, creating) == rendered(args, true, creating) + if in_compile(
            switch_scope(a),
            creating,
        ) {
            seq![switch_text(a)]
        } else {
            Seq::empty()
        },
        switch_scope(a) == Scope::Ignore ==> !in_preprocess(switch_scope(a)) && !in_compile(
            switch_scope(a),
            creating,
        ),
        switch_scope(a) == Scope::Shared ==> in_preprocess(switch_scope(a)) && in_compile(
            switch_scope(a),
            creating,
        ),
        switch_scope(a) == Scope::Preprocessor ==> in_preprocess(switch_scope(a)) && in_compile(
            switch_scope(a),
            creating,
        ) == creating,
        switch_scope(a) == Scope::Compiler ==> !in_preprocess(switch_scope(a)) && in_compile(
            switch_scope(a),
            creating,
        ),
{
    assert(args.push(a).drop_last() =~= args);
    assert(rendered(args, false, creating) + Seq::<Seq<char>>::empty() =~= rendered(
        args,
        false,
        creating,
    ));
    assert(rendered(args, true, creating) + Seq::<Seq<char>>::empty() =~= rendered(
        args,
        true,
        creating,
    ));
    assert(rendered(args, false, creating).push(switch_text(a)) =~= rendered(
        args,
        false,
        creating,
    ) + seq![switch_text(a)]);
    assert(rendered(args, true, creating).push(switch_text(a)) =~= rendered(args, true, creating)
        + seq![switch_text(a)]);
}

} // verus!
