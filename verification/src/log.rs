//! What a report holds: the severity of a record, the frames of a stack as
//! they are shown, and the details of one stall.

use crate::detector::StallReport;
use crate::text::{joined, millis_text, push_joined, push_millis, push_signed, signed_text};
use crate::trace::{other_traces, relevant_traces, split_traces, Frame, Local, StackTrace};
use vstd::prelude::*;
use vstd::string::StringExecFns;

verus! {

/// How serious a record is.
#[derive(Clone, Copy, Debug, PartialEq, Eq, Structural)]
pub enum Severity {
    /// No severity was given.
    Default,
    /// For the developer.
    Debug,
    /// A routine message.
    Info,
    /// Normal, but worth a look.
    Notice,
    /// Something may be wrong.
    Warning,
    /// Something is wrong.
    Error,
}

impl Severity {
    /// The severity's name as records show it in text.
    pub open spec fn spec_name(self) -> Seq<char> {
        match self {
            Severity::Default => "Default"@,
            Severity::Debug => "Debug"@,
            Severity::Info => "Info"@,
            Severity::Notice => "Notice"@,
            Severity::Warning => "Warning"@,
            Severity::Error => "Error"@,
        }
    }

    /// The severity's name as structured records show it: in capitals.
    pub open spec fn spec_json_name(self) -> Seq<char> {
        match self {
            Severity::Default => "DEFAULT"@,
            Severity::Debug => "DEBUG"@,
            Severity::Info => "INFO"@,
            Severity::Notice => "NOTICE"@,
            Severity::Warning => "WARNING"@,
            Severity::Error => "ERROR"@,
        }
    }

    /// The severity's name as records show it in text.
    pub fn name(self) -> (r: &'static str)
        ensures
            r@ == self.spec_name(),
    {
        match self {
            Severity::Default => "Default",
            Severity::Debug => "Debug",
            Severity::Info => "Info",
            Severity::Notice => "Notice",
            Severity::Warning => "Warning",
            Severity::Error => "Error",
        }
    }

    /// The severity's name as structured records show it: in capitals.
    pub fn json_name(self) -> (r: &'static str)
        ensures
            r@ == self.spec_json_name(),
    {
        match self {
            Severity::Default => "DEFAULT",
            Severity::Debug => "DEBUG",
            Severity::Info => "INFO",
            Severity::Notice => "NOTICE",
            Severity::Warning => "WARNING",
            Severity::Error => "ERROR",
        }
    }
}

/// A local variable as a report shows it.
#[derive(Clone, Debug, PartialEq, Eq)]
pub struct LocalVariable {
    /// The variable's name.
    pub name: String,
    /// The printed form of its value; `?` where the sampler got none.
    pub value: String,
}

/// One call of a stack as a report shows it.
#[derive(Clone, Debug, PartialEq, Eq)]
pub struct StackFrame {
    /// The name of the function.
    pub name: String,
    /// The file that holds the function.
    pub filename: String,
    /// The line in that file.
    pub line: i32,
    /// The frame's local variables, where they were sampled.
    pub locals: Option<Vec<LocalVariable>>,
}

/// The details of one stall in a report.
#[derive(Clone, Debug, PartialEq, Eq)]
pub struct StallDetails {
    /// For how long the stall has lasted so far, in nanoseconds.
    pub length: u64,
    /// The stacks of the threads that are probably responsible, each with
    /// its outermost call first.
    pub relevant_traces: Vec<Vec<StackFrame>>,
    /// The stacks of the other threads.
    pub other_traces: Vec<Vec<StackFrame>>,
    /// The command line of the target.
    pub cmdline: Vec<String>,
    /// Whether the stacks were left out because of the limit on stack dumps.
    pub rate_limited: bool,
}

/// Whether `shown` is the local variable `local` as a report shows it.
pub open spec fn shows_local(shown: LocalVariable, local: Local) -> bool {
    &&& shown.name@ == local.name@
    &&& shown.value@ == match local.repr {
        Some(repr) => repr@,
        None => "?"@,
    }
}

/// Whether `shown` are the local variables `locals` as a report shows them.
pub open spec fn shows_locals(shown: Option<Vec<LocalVariable>>, locals: Option<Vec<Local>>) -> bool {
    match (shown, locals) {
        (None, None) => true,
        (Some(shown), Some(locals)) => {
            &&& shown@.len() == locals@.len()
            &&& forall|i: int| 0 <= i < shown@.len() ==> shows_local(#[trigger] shown@[i], locals@[i])
        },
        _ => false,
    }
}

/// Whether `shown` is the frame `frame` as a report shows it.
pub open spec fn shows_frame(shown: StackFrame, frame: Frame) -> bool {
    &&& shown.name@ == frame.name@
    &&& shown.filename@ == frame.filename@
    &&& shown.line == frame.line
    &&& shows_locals(shown.locals, frame.locals)
}

/// Whether `shown` is the stack of `trace` as a report shows it: the same
/// frames, outermost call first.
pub open spec fn shows_stack(shown: Seq<StackFrame>, trace: StackTrace) -> bool {
    &&& shown.len() == trace.frames@.len()
    &&& forall|i: int|
        0 <= i < shown.len() ==> shows_frame(
            #[trigger] shown[i],
            trace.frames@[trace.frames@.len() - 1 - i],
        )
}

/// Whether `shown` are the stacks of `traces` as a report shows them, in the
/// same order.
pub open spec fn shows_stacks(shown: Seq<Vec<StackFrame>>, traces: Seq<StackTrace>) -> bool {
    &&& shown.len() == traces.len()
    &&& forall|i: int| 0 <= i < shown.len() ==> shows_stack((#[trigger] shown[i])@, traces[i])
}

/// The local variables of a frame as a report shows them.
fn convert_locals(locals: &Vec<Local>) -> (r: Vec<LocalVariable>)
    ensures
        shows_locals(Some(r), Some(*locals)),
{
    let mut shown: Vec<LocalVariable> = Vec::new();
    let mut i: usize = 0;
    while i < locals.len()
        invariant
            i <= locals.len(),
            shown@.len() == i,
            forall|k: int| 0 <= k < i ==> shows_local(#[trigger] shown@[k], locals@[k]),
        decreases locals.len() - i,
    {
        let local = &locals[i];
        let value = match &local.repr {
            Some(repr) => repr.clone(),
            None => "?".to_owned(),
        };
        shown.push(LocalVariable { name: local.name.clone(), value });
        i = i + 1;
    }
    shown
}

/// Turns a sampled stack into the form that reports show: the frames in
/// reverse, so that the outermost call comes first, each with its name, file
/// and line, and with its local variables where they were sampled; a
/// variable without a printed value shows `?`.
pub fn convert_stack(trace: &StackTrace) -> (r: Vec<StackFrame>)
    ensures
        shows_stack(r@, *trace),
{
    let n = trace.frames.len();
    let mut frames: Vec<StackFrame> = Vec::new();
    let mut i: usize = 0;
    while i < n
        invariant
            i <= n,
            n == trace.frames@.len(),
            frames@.len() == i,
            forall|k: int|
                0 <= k < i ==> shows_frame(#[trigger] frames@[k], trace.frames@[n - 1 - k]),
        decreases n - i,
    {
        let frame = &trace.frames[n - 1 - i];
        let locals = match &frame.locals {
            Some(frame_locals) => Some(convert_locals(frame_locals)),
            None => None,
        };
        frames.push(
            StackFrame {
                name: frame.name.clone(),
                filename: frame.filename.clone(),
                line: frame.line,
                locals,
            },
        );
        i = i + 1;
    }
    frames
}

/// The stacks of `traces` as a report shows them.
fn convert_stacks(traces: &Vec<&StackTrace>) -> (r: Vec<Vec<StackFrame>>)
    ensures
        shows_stacks(r@, crate::trace::referents(traces@)),
{
    let mut shown: Vec<Vec<StackFrame>> = Vec::new();
    let mut i: usize = 0;
    while i < traces.len()
        invariant
            i <= traces.len(),
            shown@.len() == i,
            forall|k: int| 0 <= k < i ==> shows_stack((#[trigger] shown@[k])@, *traces@[k]),
        decreases traces.len() - i,
    {
        shown.push(convert_stack(traces[i]));
        i = i + 1;
    }
    shown
}

impl StallDetails {
    /// The details of a stall that got no stack dump because of the limit on
    /// dumps.
    pub fn rate_limited(report: &StallReport, cmdline: Vec<String>) -> (r: StallDetails)
        ensures
            r.length == report.duration,
            r.rate_limited,
            r.relevant_traces@.len() == 0,
            r.other_traces@.len() == 0,
            r.cmdline == cmdline,
    {
        StallDetails {
            length: report.duration,
            relevant_traces: Vec::new(),
            other_traces: Vec::new(),
            cmdline,
            rate_limited: true,
        }
    }

    /// The details of a stall with the stacks that were dumped for it: those
    /// of the threads that the stall's hint points at, and those of the
    /// others, each list in the order of the dump.
    pub fn with_traces(report: &StallReport, traces: &Vec<StackTrace>, cmdline: Vec<String>) -> (r:
        StallDetails)
        ensures
            r.length == report.duration,
            !r.rate_limited,
            shows_stacks(r.relevant_traces@, relevant_traces(report.thread_hint, traces@)),
            shows_stacks(r.other_traces@, other_traces(report.thread_hint, traces@)),
            r.cmdline == cmdline,
    {
        let (relevant, rest) = split_traces(report.thread_hint, traces);
        StallDetails {
            length: report.duration,
            relevant_traces: convert_stacks(&relevant),
            other_traces: convert_stacks(&rest),
            cmdline,
            rate_limited: false,
        }
    }
}

/// The text of the pairs of a record: each as `key: value`, with `, `
/// between them.
pub open spec fn info_text(info: Seq<(String, String)>) -> Seq<char>
    decreases info.len(),
{
    if info.len() == 0 {
        Seq::<char>::empty()
    } else if info.len() == 1 {
        info[0].0@ + ": "@ + info[0].1@
    } else {
        info_text(info.drop_last()) + ", "@ + info.last().0@ + ": "@ + info.last().1@
    }
}

/// The text of a record: the severity in square brackets, the message, and
/// the pairs in round brackets.
pub open spec fn log_text(severity: Severity, message: Seq<char>, info: Seq<(String, String)>) -> Seq<
    char,
> {
    "["@ + severity.spec_name() + "] "@ + message + " ("@ + info_text(info) + ")"@
}

/// Writes a record as one line of text, as it is shown where no structured
/// output is asked for. The pairs come in the order given.
pub fn log(severity: Severity, message: &str, additional_info: &Vec<(String, String)>) -> (r: String)
    ensures
        r@ == log_text(severity, message@, additional_info@),
{
    let mut out = String::new();
    out.append("[");
    out.append(severity.name());
    out.append("] ");
    out.append(message);
    out.append(" (");
    let ghost head = out@;
    let mut i: usize = 0;
    proof {
        assert(out@ =~= head + info_text(additional_info@.subrange(0, 0)));
    }
    while i < additional_info.len()
        invariant
            i <= additional_info.len(),
            out@ == head + info_text(additional_info@.subrange(0, i as int)),
        decreases additional_info.len() - i,
    {
        let ghost before = additional_info@.subrange(0, i as int);
        let ghost now = additional_info@.subrange(0, i + 1);
        proof {
            assert(now.drop_last() =~= before);
            assert(now.last() == additional_info@[i as int]);
        }
        if i > 0 {
            out.append(", ");
        }
        let pair = &additional_info[i];
        out.append(pair.0.as_str());
        out.append(": ");
        out.append(pair.1.as_str());
        proof {
            if i == 0 {
                assert(out@ =~= head + info_text(now));
            } else {
                assert(out@ =~= head + info_text(now));
            }
        }
        i = i + 1;
    }
    proof {
        assert(additional_info@.subrange(0, additional_info@.len() as int) =~= additional_info@);
    }
    out.append(")");
    proof {
        assert(out@ =~= log_text(severity, message@, additional_info@));
    }
    out
}

/// The texts of the lines.
pub open spec fn texts(lines: Seq<String>) -> Seq<Seq<char>> {
    Seq::new(lines.len(), |i: int| lines[i]@)
}

/// The line that shows a frame: the function, and in brackets the file and
/// the line in it.
pub open spec fn frame_line(frame: StackFrame) -> Seq<char> {
    "        "@ + frame.name@ + " ("@ + frame.filename@ + ":"@ + signed_text(frame.line as int)
        + ")"@
}

/// The line that shows a local variable.
pub open spec fn local_line(local: LocalVariable) -> Seq<char> {
    "            "@ + local.name@ + " = "@ + local.value@
}

/// The lines that show the local variables of a frame.
pub open spec fn locals_lines(locals: Seq<LocalVariable>) -> Seq<Seq<char>> {
    Seq::new(locals.len(), |i: int| local_line(locals[i]))
}

/// The lines that show a frame: the frame itself, then its local variables.
pub open spec fn frame_lines(frame: StackFrame) -> Seq<Seq<char>> {
    seq![frame_line(frame)] + match frame.locals {
        Some(locals) => locals_lines(locals@),
        None => Seq::<Seq<char>>::empty(),
    }
}

/// The lines that show a stack, frame by frame.
pub open spec fn stack_lines(frames: Seq<StackFrame>) -> Seq<Seq<char>>
    decreases frames.len(),
{
    if frames.len() == 0 {
        Seq::<Seq<char>>::empty()
    } else {
        stack_lines(frames.drop_last()) + frame_lines(frames.last())
    }
}

/// The lines that show several stacks, one after the other.
pub open spec fn stacks_lines(stacks: Seq<Vec<StackFrame>>) -> Seq<Seq<char>>
    decreases stacks.len(),
{
    if stacks.len() == 0 {
        Seq::<Seq<char>>::empty()
    } else {
        stacks_lines(stacks.drop_last()) + stack_lines(stacks.last()@)
    }
}

/// The lines that show stacks under a heading; nothing where there is no
/// stack.
pub open spec fn section_lines(heading: Seq<char>, stacks: Seq<Vec<StackFrame>>) -> Seq<Seq<char>> {
    if stacks.len() == 0 {
        Seq::<Seq<char>>::empty()
    } else {
        seq![heading] + stacks_lines(stacks)
    }
}

/// The lines that show the details of a stall: how long it has lasted, in
/// milliseconds; the target's command line; a note where the stacks were
/// left out; the stacks of the threads that are probably responsible; and
/// those of the others.
pub open spec fn details_lines(details: StallDetails) -> Seq<Seq<char>> {
    seq![
        "  Duration (so far): "@ + millis_text(details.length as nat) + " ms"@,
        "  Command line: "@ + joined(details.cmdline@, " "@),
    ] + (if details.rate_limited {
        seq!["  -- (no traceback because of rate limiting) --"@]
    } else {
        Seq::<Seq<char>>::empty()
    }) + section_lines("  -- This thread is probably responsible --"@, details.relevant_traces@)
        + section_lines(
        "  -- Other threads (probably not responsible) --"@,
        details.other_traces@,
    )
}

/// The lines of a record: the record itself, then the details of the stall
/// where it has any.
pub open spec fn record_lines(
    severity: Severity,
    message: Seq<char>,
    info: Seq<(String, String)>,
    details: Option<StallDetails>,
) -> Seq<Seq<char>> {
    seq![log_text(severity, message, info)] + match details {
        Some(details) => details_lines(details),
        None => Seq::<Seq<char>>::empty(),
    }
}

/// Appends the lines that show a stack.
pub fn print_stack(out: &mut Vec<String>, trace: &Vec<StackFrame>)
    ensures
        texts(final(out)@) == texts(old(out)@) + stack_lines(trace@),
{
    let ghost head = texts(out@);
    let mut i: usize = 0;
    proof {
        assert(texts(out@) =~= head + stack_lines(trace@.subrange(0, 0)));
    }
    while i < trace.len()
        invariant
            i <= trace.len(),
            texts(out@) == head + stack_lines(trace@.subrange(0, i as int)),
        decreases trace.len() - i,
    {
        let frame = &trace[i];
        let ghost base = texts(out@);
        proof {
            let now = trace@.subrange(0, i + 1);
            assert(now.drop_last() =~= trace@.subrange(0, i as int));
            assert(now.last() == trace@[i as int]);
        }
        let mut line = String::new();
        line.append("        ");
        line.append(frame.name.as_str());
        line.append(" (");
        line.append(frame.filename.as_str());
        line.append(":");
        push_signed(&mut line, frame.line);
        line.append(")");
        proof {
            assert(line@ =~= frame_line(*frame));
        }
        out.push(line);
        proof {
            assert(texts(out@) =~= base + seq![frame_line(*frame)]);
        }
        match &frame.locals {
            Some(locals) => {
                let mut j: usize = 0;
                while j < locals.len()
                    invariant
                        j <= locals.len(),
                        texts(out@) == base + seq![frame_line(*frame)] + locals_lines(
                            locals@.subrange(0, j as int),
                        ),
                    decreases locals.len() - j,
                {
                    let local = &locals[j];
                    let mut text = String::new();
                    text.append("            ");
                    text.append(local.name.as_str());
                    text.append(" = ");
                    text.append(local.value.as_str());
                    proof {
                        assert(text@ =~= local_line(*local));
                    }
                    let ghost shown = texts(out@);
                    out.push(text);
                    proof {
                        assert(texts(out@) =~= shown.push(local_line(*local)));
                        assert(locals_lines(locals@.subrange(0, j + 1)) =~= locals_lines(
                            locals@.subrange(0, j as int),
                        ).push(local_line(locals@[j as int])));
                        assert(texts(out@) =~= base + seq![frame_line(*frame)] + locals_lines(
                            locals@.subrange(0, j + 1),
                        ));
                    }
                    j = j + 1;
                }
                proof {
                    assert(locals@.subrange(0, locals@.len() as int) =~= locals@);
                    assert(texts(out@) =~= base + frame_lines(*frame));
                }
            },
            None => {
                proof {
                    assert(texts(out@) =~= base + frame_lines(*frame));
                }
            },
        }
        proof {
            assert(texts(out@) =~= head + stack_lines(trace@.subrange(0, i + 1)));
        }
        i = i + 1;
    }
    proof {
        assert(trace@.subrange(0, trace@.len() as int) =~= trace@);
    }
}

/// Appends the lines that show stacks under a heading; nothing where there is
/// no stack.
fn print_section(out: &mut Vec<String>, heading: &str, stacks: &Vec<Vec<StackFrame>>)
    ensures
        texts(final(out)@) == texts(old(out)@) + section_lines(heading@, stacks@),
{
    let ghost head = texts(out@);
    if stacks.len() == 0 {
        proof {
            assert(texts(out@) =~= head + section_lines(heading@, stacks@));
        }
        return ;
    }
    out.push(heading.to_owned());
    let mut i: usize = 0;
    proof {
        assert(texts(out@) =~= head + seq![heading@] + stacks_lines(stacks@.subrange(0, 0)));
    }
    while i < stacks.len()
        invariant
            i <= stacks.len(),
            texts(out@) == head + seq![heading@] + stacks_lines(stacks@.subrange(0, i as int)),
        decreases stacks.len() - i,
    {
        proof {
            let now = stacks@.subrange(0, i + 1);
            assert(now.drop_last() =~= stacks@.subrange(0, i as int));
            assert(now.last() == stacks@[i as int]);
        }
        print_stack(out, &stacks[i]);
        proof {
            assert(texts(out@) =~= head + seq![heading@] + stacks_lines(stacks@.subrange(0, i + 1)));
        }
        i = i + 1;
    }
    proof {
        assert(stacks@.subrange(0, stacks@.len() as int) =~= stacks@);
        assert(texts(out@) =~= head + section_lines(heading@, stacks@));
    }
}

/// Writes a record as lines of text, as it is shown where no structured
/// output is asked for: the record itself, and below it the details of the
/// stall where it has any.
pub fn log_with_details(
    severity: Severity,
    message: &str,
    additional_info: &Vec<(String, String)>,
    stall_details: Option<&StallDetails>,
) -> (r: Vec<String>)
    ensures
        texts(r@) == record_lines(
            severity,
            message@,
            additional_info@,
            match stall_details {
                Some(details) => Some(*details),
                None => None,
            },
        ),
{
    let mut out: Vec<String> = Vec::new();
    out.push(log(severity, message, additional_info));
    let ghost first = seq![log_text(severity, message@, additional_info@)];
    proof {
        assert(texts(out@) =~= first);
    }
    match stall_details {
        Some(details) => {
            let mut duration = String::new();
            duration.append("  Duration (so far): ");
            push_millis(&mut duration, details.length);
            duration.append(" ms");
            out.push(duration);
            let mut command = String::new();
            command.append("  Command line: ");
            push_joined(&mut command, &details.cmdline, " ");
            out.push(command);
            if details.rate_limited {
                out.push("  -- (no traceback because of rate limiting) --".to_owned());
            }
            let ghost top = texts(out@);
            proof {
                assert(top =~= first + seq![
                    "  Duration (so far): "@ + millis_text(details.length as nat) + " ms"@,
                    "  Command line: "@ + joined(details.cmdline@, " "@),
                ] + (if details.rate_limited {
                    seq!["  -- (no traceback because of rate limiting) --"@]
                } else {
                    Seq::<Seq<char>>::empty()
                }));
            }
            print_section(
                &mut out,
                "  -- This thread is probably responsible --",
                &details.relevant_traces,
            );
            print_section(
                &mut out,
                "  -- Other threads (probably not responsible) --",
                &details.other_traces,
            );
            proof {
                assert(texts(out@) =~= first + details_lines(*details));
            }
        },
        None => {
            proof {
                assert(texts(out@) =~= record_lines(
                    severity,
                    message@,
                    additional_info@,
                    None,
                ));
            }
        },
    }
    out
}

} // verus!
