//! The debug adapter's state and decisions: which request is which, which
//! breakpoints a debug map can honour, and how messages are framed on the
//! wire. Reading and writing the messages is left to the program around it.
use vstd::prelude::*;
use crate::diagnostics::Diagnostic;
use crate::hir::chars_lt;
use crate::text::{cat, cat3, chars_of, string_from, usize_to_string, parse_usize_digits, trim};

verus! {

/// The schema of the capabilities this adapter announces.
pub const DAP_CAPABILITIES_SCHEMA_VERSION: &'static str = "axiom.stage1.dap.v1";

/// The schema of the debug maps a debug build writes.
pub const DEBUG_MAP_SCHEMA_VERSION: &'static str = "axiom.stage1.debug_map.v1";

/// The largest message body accepted, in bytes.
pub const MAX_DAP_FRAME_SIZE: usize = 16777216;

/// A line of source that a debug map says a breakpoint can stop at.
#[derive(Debug, Clone, PartialEq, Eq)]
pub struct SourceLine {
    pub source: String,
    pub line: u64,
}

/// The program being debugged.
#[derive(Debug, Clone)]
pub struct DebugSession {
    pub project: String,
    pub package: Option<String>,
    pub binary: String,
    pub debug_map: String,
    /// In ascending order of source, then line, each once.
    pub breakable_lines: Vec<SourceLine>,
}

/// The adapter: the number of the last message it sent, and the session a
/// `launch` started, if any.
#[derive(Debug)]
pub struct DebugAdapter {
    next_seq: i64,
    session: Option<DebugSession>,
}

/// The requests the adapter knows.
#[derive(Debug, Clone, Copy, PartialEq, Eq)]
pub enum DapCommand {
    Initialize,
    Launch,
    SetBreakpoints,
    /// `configurationDone`, `disconnect` and `terminate`, answered with an empty body.
    Acknowledge,
    Threads,
    LoadedSources,
    StackTrace,
    Scopes,
    Variables,
    Unsupported,
}

/// Whether `lines` has a line at `line` of `source`.
pub open spec fn has_line(lines: Seq<SourceLine>, source: Seq<char>, line: u64) -> bool {
    exists|i: int| 0 <= i < lines.len() && (#[trigger] lines[i]).source@ == source && lines[i].line == line
}

/// Whether `lines` has a line of `source`.
pub open spec fn has_source(lines: Seq<SourceLine>, source: Seq<char>) -> bool {
    exists|i: int| 0 <= i < lines.len() && (#[trigger] lines[i]).source@ == source
}

pub open spec fn line_lt(a: SourceLine, b: SourceLine) -> bool {
    chars_lt(a.source@, b.source@) || (a.source@ == b.source@ && a.line < b.line)
}

pub open spec fn lines_sorted(v: Seq<SourceLine>) -> bool {
    forall|i: int, j: int| 0 <= i < j < v.len() ==> line_lt(#[trigger] v[i], #[trigger] v[j])
}

impl DebugAdapter {
    pub closed spec fn last_seq(&self) -> i64 {
        self.next_seq
    }

    pub closed spec fn session_spec(&self) -> Option<DebugSession> {
        self.session
    }

    /// An adapter that has sent nothing and debugs nothing.
    pub fn new() -> (a: DebugAdapter)
        ensures
            a.last_seq() == 0,
            a.session_spec() is None,
    {
        DebugAdapter { next_seq: 0, session: None }
    }

    /// The number of the next message: one more than the last, or the last
    /// again once the counter is at its largest value.
    pub fn seq(&mut self) -> (n: i64)
        ensures
            old(self).last_seq() < i64::MAX ==> n == old(self).last_seq() + 1,
            old(self).last_seq() == i64::MAX ==> n == i64::MAX,
            final(self).last_seq() == n,
            final(self).session_spec() == old(self).session_spec(),
    {
        if self.next_seq < i64::MAX {
            self.next_seq = self.next_seq + 1;
        }
        self.next_seq
    }

    /// Starts a session, replacing any earlier one.
    pub fn start_session(&mut self, session: DebugSession)
        ensures
            final(self).session_spec() == Some(session),
            final(self).last_seq() == old(self).last_seq(),
    {
        self.session = Some(session);
    }

    /// Ends the session, as a failed `launch` does.
    pub fn clear_session(&mut self)
        ensures
            final(self).session_spec() is None,
            final(self).last_seq() == old(self).last_seq(),
    {
        self.session = None;
    }

    pub fn session(&self) -> (s: Option<&DebugSession>)
        ensures
            s matches Some(x) ==> self.session_spec() == Some(*x),
            s is None ==> self.session_spec() is None,
    {
        match &self.session {
            Some(x) => Some(x),
            None => None,
        }
    }

    /// Whether a breakpoint at `line` of `source` can be honoured: a session
    /// is running and its debug map lists that line.
    pub fn breakpoint_verified(&self, source: &String, line: u64) -> (b: bool)
        ensures
            b == match self.session_spec() {
                Some(s) => has_line(s.breakable_lines@, source@, line),
                None => false,
            },
    {
        match &self.session {
            None => false,
            Some(s) => {
                let mut i: usize = 0;
                while i < s.breakable_lines.len()
                    invariant
                        i <= s.breakable_lines@.len(),
                        self.session_spec() == Some(*s),
                        forall|j: int|
                            0 <= j < i ==> !((#[trigger] s.breakable_lines@[j]).source@ == source@
                                && s.breakable_lines@[j].line == line),
                    decreases s.breakable_lines@.len() - i,
                {
                    if s.breakable_lines[i].source == *source && s.breakable_lines[i].line == line {
                        proof {
                            assert(self.session_spec() == Some(*s));
                            assert(s.breakable_lines@[i as int].source@ == source@);
                            assert(has_line(s.breakable_lines@, source@, line));
                        }
                        return true;
                    }
                    i = i + 1;
                }
                false
            },
        }
    }
}

/// The kind of request a command names.
pub open spec fn command_kind(c: Seq<char>) -> DapCommand {
    if c == "initialize"@ {
        DapCommand::Initialize
    } else if c == "launch"@ {
        DapCommand::Launch
    } else if c == "setBreakpoints"@ {
        DapCommand::SetBreakpoints
    } else if c == "configurationDone"@ || c == "disconnect"@ || c == "terminate"@ {
        DapCommand::Acknowledge
    } else if c == "threads"@ {
        DapCommand::Threads
    } else if c == "loadedSources"@ {
        DapCommand::LoadedSources
    } else if c == "stackTrace"@ {
        DapCommand::StackTrace
    } else if c == "scopes"@ {
        DapCommand::Scopes
    } else if c == "variables"@ {
        DapCommand::Variables
    } else {
        DapCommand::Unsupported
    }
}

/// Which request a command names.
pub fn classify_command(command: &str) -> (c: DapCommand)
    ensures
        c == command_kind(command@),
        c == DapCommand::Initialize ==> command@ == "initialize"@,
        c == DapCommand::Launch ==> command@ == "launch"@,
        c == DapCommand::SetBreakpoints ==> command@ == "setBreakpoints"@,
        c == DapCommand::Acknowledge ==> (command@ == "configurationDone"@ || command@
            == "disconnect"@ || command@ == "terminate"@),
        c == DapCommand::Threads ==> command@ == "threads"@,
        c == DapCommand::LoadedSources ==> command@ == "loadedSources"@,
        c == DapCommand::StackTrace ==> command@ == "stackTrace"@,
        c == DapCommand::Scopes ==> command@ == "scopes"@,
        c == DapCommand::Variables ==> command@ == "variables"@,
        c == DapCommand::Unsupported ==> {
            &&& command@ != "initialize"@
            &&& command@ != "launch"@
            &&& command@ != "setBreakpoints"@
            &&& command@ != "configurationDone"@
            &&& command@ != "disconnect"@
            &&& command@ != "terminate"@
            &&& command@ != "threads"@
            &&& command@ != "loadedSources"@
            &&& command@ != "stackTrace"@
            &&& command@ != "scopes"@
            &&& command@ != "variables"@
        },
{
    let s = String::from_str(command);
    if crate::text::string_is(&s, "initialize") {
        DapCommand::Initialize
    } else if crate::text::string_is(&s, "launch") {
        DapCommand::Launch
    } else if crate::text::string_is(&s, "setBreakpoints") {
        DapCommand::SetBreakpoints
    } else if crate::text::string_is(&s, "configurationDone") || crate::text::string_is(&s, "disconnect")
        || crate::text::string_is(&s, "terminate") {
        DapCommand::Acknowledge
    } else if crate::text::string_is(&s, "threads") {
        DapCommand::Threads
    } else if crate::text::string_is(&s, "loadedSources") {
        DapCommand::LoadedSources
    } else if crate::text::string_is(&s, "stackTrace") {
        DapCommand::StackTrace
    } else if crate::text::string_is(&s, "scopes") {
        DapCommand::Scopes
    } else if crate::text::string_is(&s, "variables") {
        DapCommand::Variables
    } else {
        DapCommand::Unsupported
    }
}

/// The error a request the adapter does not know is answered with.
pub fn unsupported_command_error(command: &str) -> (d: Diagnostic)
    ensures
        d.kind@ == "dap"@,
        d.message@ == "unsupported DAP command `"@ + command@ + "` in stage1 adapter"@,
{
    Diagnostic::new("dap", cat3("unsupported DAP command `", command, "` in stage1 adapter"))
}

fn line_less(a: &SourceLine, b: &SourceLine) -> (r: bool)
    ensures
        r == line_lt(*a, *b),
{
    crate::hir::string_lt(&a.source, &b.source) || (a.source == b.source && a.line < b.line)
}

proof fn lemma_line_lt_transitive(a: SourceLine, b: SourceLine, c: SourceLine)
    requires
        line_lt(a, b),
        line_lt(b, c),
    ensures
        line_lt(a, c),
{
    if chars_lt(a.source@, b.source@) && chars_lt(b.source@, c.source@) {
        crate::hir::lemma_chars_lt_transitive(a.source@, b.source@, c.source@);
    }
}

/// Two lines that differ are ordered one way or the other.
proof fn lemma_line_lt_total(a: SourceLine, b: SourceLine)
    requires
        !line_lt(a, b),
        !(a.source@ == b.source@ && a.line == b.line),
    ensures
        line_lt(b, a),
{
    if a.source@ != b.source@ {
        crate::hir::lemma_chars_lt_total(a.source@, b.source@);
    }
}

/// The lines of a debug map as a set, in ascending order of source and line.
pub fn breakable_lines_from(mappings: &Vec<SourceLine>) -> (v: Vec<SourceLine>)
    ensures
        lines_sorted(v@),
        forall|i: int| 0 <= i < v@.len() ==> has_line(mappings@, (#[trigger] v@[i]).source@, v@[i].line),
        forall|j: int| 0 <= j < mappings@.len() ==> has_line(v@, (#[trigger] mappings@[j]).source@, mappings@[j].line),
{
    let mut out: Vec<SourceLine> = Vec::new();
    let mut k: usize = 0;
    while k < mappings.len()
        invariant
            k <= mappings@.len(),
            lines_sorted(out@),
            forall|i: int|
                0 <= i < out@.len() ==> has_line(mappings@, (#[trigger] out@[i]).source@, out@[i].line),
            forall|j: int| 0 <= j < k ==> has_line(out@, (#[trigger] mappings@[j]).source@, mappings@[j].line),
        decreases mappings@.len() - k,
    {
        let m = &mappings[k];
        let mut pos: usize = 0;
        while pos < out.len() && line_less(&out[pos], m)
            invariant
                pos <= out@.len(),
                forall|i: int| 0 <= i < pos ==> line_lt(#[trigger] out@[i], *m),
            decreases out@.len() - pos,
        {
            pos = pos + 1;
        }
        let duplicate = pos < out.len() && out[pos].source == m.source && out[pos].line == m.line;
        if duplicate {
            proof {
                assert(out@[pos as int].source@ == m.source@ && out@[pos as int].line == m.line);
                assert(has_line(out@, mappings@[k as int].source@, mappings@[k as int].line));
            }
        }
        if !duplicate {
            let item = SourceLine { source: m.source.clone(), line: m.line };
            let ghost old_out = out@;
            proof {
                if pos < old_out.len() {
                    lemma_line_lt_total(old_out[pos as int], item);
                    assert forall|i: int| pos <= i < old_out.len() implies line_lt(item, #[trigger] old_out[i]) by {
                        if i > pos {
                            lemma_line_lt_transitive(item, old_out[pos as int], old_out[i]);
                        }
                    }
                }
            }
            out.insert(pos, item);
            proof {
                assert forall|i: int, j: int| 0 <= i < j < out@.len() implies line_lt(#[trigger] out@[i], #[trigger] out@[j]) by {
                    if j < pos {
                        assert(out@[i] == old_out[i] && out@[j] == old_out[j]);
                    } else if j == pos {
                        assert(out@[i] == old_out[i]);
                    } else if i < pos {
                        assert(out@[i] == old_out[i] && out@[j] == old_out[j - 1]);
                        lemma_line_lt_transitive(old_out[i], item, old_out[j - 1]);
                    } else if i == pos {
                        assert(out@[j] == old_out[j - 1]);
                    } else {
                        assert(out@[i] == old_out[i - 1] && out@[j] == old_out[j - 1]);
                    }
                }
                assert forall|i: int| 0 <= i < out@.len() implies has_line(
                    mappings@,
                    (#[trigger] out@[i]).source@,
                    out@[i].line,
                ) by {
                    if i < pos {
                        assert(out@[i] == old_out[i]);
                    } else if i == pos {
                        assert(mappings@[k as int].source@ == out@[i].source@);
                    } else {
                        assert(out@[i] == old_out[i - 1]);
                    }
                }
                assert forall|j: int| 0 <= j < k + 1 implies has_line(
                    out@,
                    (#[trigger] mappings@[j]).source@,
                    mappings@[j].line,
                ) by {
                    if j == k {
                        assert(out@[pos as int] == item);
                    } else {
                        let q = choose|q: int|
                            0 <= q < old_out.len() && (#[trigger] old_out[q]).source@ == mappings@[j].source@
                                && old_out[q].line == mappings@[j].line;
                        if q < pos {
                            assert(out@[q] == old_out[q]);
                        } else {
                            assert(out@[q + 1] == old_out[q]);
                        }
                    }
                }
            }
        }
        k = k + 1;
    }
    out
}

/// Whether `v` holds the text `s`.
pub open spec fn has_text(v: Seq<String>, s: Seq<char>) -> bool {
    exists|i: int| 0 <= i < v.len() && (#[trigger] v[i])@ == s
}

pub open spec fn sources_sorted(v: Seq<String>) -> bool {
    forall|i: int, j: int| 0 <= i < j < v.len() ==> chars_lt(#[trigger] v[i]@, #[trigger] v[j]@)
}

/// The distinct sources of a session's breakable lines, in ascending order.
pub fn loaded_sources(session: &DebugSession) -> (v: Vec<String>)
    ensures
        sources_sorted(v@),
        forall|i: int| 0 <= i < v@.len() ==> has_source(session.breakable_lines@, (#[trigger] v@[i])@),
        forall|j: int|
            0 <= j < session.breakable_lines@.len() ==> has_text(v@, (#[trigger] session.breakable_lines@[j]).source@),
{
    let lines = &session.breakable_lines;
    let mut out: Vec<String> = Vec::new();
    let mut k: usize = 0;
    while k < lines.len()
        invariant
            k <= lines@.len(),
            sources_sorted(out@),
            forall|i: int| 0 <= i < out@.len() ==> has_source(lines@, (#[trigger] out@[i])@),
            forall|j: int| 0 <= j < k ==> has_text(out@, (#[trigger] lines@[j]).source@),
        decreases lines@.len() - k,
    {
        let m = &lines[k].source;
        let mut pos: usize = 0;
        while pos < out.len() && crate::hir::string_lt(&out[pos], m)
            invariant
                pos <= out@.len(),
                forall|i: int| 0 <= i < pos ==> chars_lt(#[trigger] out@[i]@, m@),
            decreases out@.len() - pos,
        {
            pos = pos + 1;
        }
        let duplicate = pos < out.len() && out[pos] == *m;
        if duplicate {
            proof {
                assert(out@[pos as int]@ == lines@[k as int].source@);
            }
        } else {
            let item = m.clone();
            let ghost old_out = out@;
            proof {
                if pos < old_out.len() {
                    crate::hir::lemma_chars_lt_total(old_out[pos as int]@, item@);
                    assert forall|i: int| pos <= i < old_out.len() implies chars_lt(item@, #[trigger] old_out[i]@) by {
                        if i > pos {
                            crate::hir::lemma_chars_lt_transitive(item@, old_out[pos as int]@, old_out[i]@);
                        }
                    }
                }
            }
            out.insert(pos, item);
            proof {
                assert forall|i: int, j: int| 0 <= i < j < out@.len() implies chars_lt(
                    #[trigger] out@[i]@,
                    #[trigger] out@[j]@,
                ) by {
                    if j < pos {
                        assert(out@[i] == old_out[i] && out@[j] == old_out[j]);
                    } else if j == pos {
                        assert(out@[i] == old_out[i]);
                    } else if i < pos {
                        assert(out@[i] == old_out[i] && out@[j] == old_out[j - 1]);
                        crate::hir::lemma_chars_lt_transitive(old_out[i]@, item@, old_out[j - 1]@);
                    } else if i == pos {
                        assert(out@[j] == old_out[j - 1]);
                    } else {
                        assert(out@[i] == old_out[i - 1] && out@[j] == old_out[j - 1]);
                    }
                }
                assert forall|i: int| 0 <= i < out@.len() implies has_source(lines@, (#[trigger] out@[i])@) by {
                    if i < pos {
                        assert(out@[i] == old_out[i]);
                    } else if i == pos {
                        assert(lines@[k as int].source@ == out@[i]@);
                    } else {
                        assert(out@[i] == old_out[i - 1]);
                    }
                }
                assert forall|j: int| 0 <= j < k + 1 implies has_text(out@, (#[trigger] lines@[j]).source@) by {
                    if j == k {
                        assert(out@[pos as int] == item);
                    } else {
                        let q = choose|q: int| 0 <= q < old_out.len() && (#[trigger] old_out[q])@ == lines@[j].source@;
                        if q < pos {
                            assert(out@[q] == old_out[q]);
                        } else {
                            assert(out@[q + 1] == old_out[q]);
                        }
                    }
                }
            }
        }
        k = k + 1;
    }
    out
}

/// The file name of a path, as `Path::file_name` gives it, or the path
/// itself where it has none.
pub fn source_name(path: &str) -> (s: String)
    ensures
        ({
            let c = crate::paths::components_of(path@);
            if c.len() > 0 && c.last() != "."@ && c.last() != ".."@ {
                s@ == c.last()
            } else {
                s@ == path@
            }
        }),
{
    let parts = crate::paths::split_path(path);
    let n = parts.components.len();
    if n > 0 {
        let last = &parts.components[n - 1];
        proof {
            assert(crate::paths::views(parts.components@).last() == last@);
        }
        if !crate::text::string_is(last, ".") && !crate::text::string_is(last, "..") {
            return last.clone();
        }
    }
    String::from_str(path)
}

/// The header that frames a message body of `length` bytes.
pub fn dap_header(length: usize) -> (s: String)
    ensures
        s@ == "Content-Length: "@ + crate::text::decimal(length as nat) + "\r\n\r\n"@,
{
    cat3("Content-Length: ", usize_to_string(length).as_str(), "\r\n\r\n")
}

/// One line of a message header.
#[derive(Debug, Clone, PartialEq, Eq)]
pub enum HeaderLine {
    /// The empty line that ends the header.
    End,
    /// A `Content-Length:` line, with the length it gives.
    ContentLength(usize),
    /// Any other header line, which is ignored.
    Other,
}

fn digits_only(t: &Vec<char>, a: usize, b: usize) -> (r: bool)
    requires
        a <= b <= t@.len(),
    ensures
        r == crate::text::all_digits(t@.subrange(a as int, b as int)),
{
    let mut i = a;
    while i < b
        invariant
            a <= i <= b <= t@.len(),
            forall|k: int| a <= k < i ==> crate::text::is_digit(t@[k]),
        decreases b - i,
    {
        if !crate::text::is_ascii_digit(t[i]) {
            proof {
                assert(t@.subrange(a as int, b as int)[i - a] == t@[i as int]);
            }
            return false;
        }
        i = i + 1;
    }
    proof {
        assert forall|k: int| 0 <= k < b - a implies crate::text::is_digit(
            #[trigger] t@.subrange(a as int, b as int)[k],
        ) by {
            assert(t@.subrange(a as int, b as int)[k] == t@[a + k]);
        }
    }
    true
}

/// The length of `t` without its trailing `\r` and `\n` characters.
pub open spec fn header_end(t: Seq<char>) -> int
    decreases t.len(),
{
    if t.len() > 0 && (t.last() == '\r' || t.last() == '\n') {
        header_end(t.drop_last())
    } else {
        t.len() as int
    }
}

/// What `usize::from_str` gives for `v`: the number, or the message of its error.
pub open spec fn usize_text_outcome(v: Seq<char>) -> Result<usize, Seq<char>> {
    let d = if v.len() > 0 && v[0] == '+' {
        v.drop_first()
    } else {
        v
    };
    if v.len() == 0 {
        Err("cannot parse integer from empty string"@)
    } else if d.len() == 0 || !crate::text::all_digits(d) {
        Err("invalid digit found in string"@)
    } else {
        match crate::text::parse_usize_digits_spec(d) {
            Some(n) => Ok(n),
            None => Err("number too large to fit in target type"@),
        }
    }
}

/// How a header line reads once its line break is dropped: the empty line
/// ends the header, a `Content-Length:` line gives the length after it
/// (surrounding whitespace dropped), and any other line is ignored.
pub open spec fn header_line_outcome(line: Seq<char>, r: Result<HeaderLine, Diagnostic>) -> bool {
    let t = line.subrange(0, header_end(line));
    if t.len() == 0 {
        r == Ok::<HeaderLine, Diagnostic>(HeaderLine::End)
    } else if !("Content-Length:"@.is_prefix_of(t)) {
        r == Ok::<HeaderLine, Diagnostic>(HeaderLine::Other)
    } else {
        exists|a: int, b: int|
            crate::text::is_trim_of(t, 15, t.len() as int, a, b) && match #[trigger] usize_text_outcome(t.subrange(a, b)) {
                Ok(n) => r == Ok::<HeaderLine, Diagnostic>(HeaderLine::ContentLength(n)),
                Err(m) => r matches Err(d) && d.message@ == "invalid DAP Content-Length: "@ + m,
            }
    }
}

/// The end of `t` once its trailing line break characters are dropped.
fn strip_line_break(t: &Vec<char>) -> (e: usize)
    ensures
        e == header_end(t@),
        e <= t@.len(),
{
    let mut e = t.len();
    proof {
        assert(t@.take(e as int) =~= t@);
    }
    while e > 0 && (t[e - 1] == '\r' || t[e - 1] == '\n')
        invariant
            e <= t@.len(),
            header_end(t@) == header_end(t@.take(e as int)),
        decreases e,
    {
        proof {
            assert(t@.take(e as int).drop_last() =~= t@.take(e - 1));
        }
        e = e - 1;
    }
    e
}

/// Reads `[a, b)` of `t` as `usize::from_str` does.
fn parse_length_value(t: &Vec<char>, a: usize, b: usize) -> (r: Result<usize, Diagnostic>)
    requires
        a <= b <= t@.len(),
    ensures
        match usize_text_outcome(t@.subrange(a as int, b as int)) {
            Ok(n) => r == Ok::<usize, Diagnostic>(n),
            Err(m) => r matches Err(d) && d.message@ == "invalid DAP Content-Length: "@ + m && d.kind@ == "dap"@,
        },
{
    proof {
        reveal_strlit("invalid DAP Content-Length: ");
    }
    let ghost v = t@.subrange(a as int, b as int);
    if a == b {
        proof {
            reveal_strlit("invalid DAP Content-Length: cannot parse integer from empty string");
            reveal_strlit("cannot parse integer from empty string");
        }
        return Err(
            Diagnostic::new("dap", String::from_str("invalid DAP Content-Length: cannot parse integer from empty string")),
        );
    }
    let start = if t[a] == '+' {
        a + 1
    } else {
        a
    };
    proof {
        if t@[a as int] == '+' {
            assert(v.drop_first() =~= t@.subrange(start as int, b as int));
        } else {
            assert(v =~= t@.subrange(start as int, b as int));
        }
    }
    if start == b || !digits_only(t, start, b) {
        proof {
            reveal_strlit("invalid DAP Content-Length: invalid digit found in string");
            reveal_strlit("invalid digit found in string");
        }
        return Err(
            Diagnostic::new("dap", String::from_str("invalid DAP Content-Length: invalid digit found in string")),
        );
    }
    match parse_usize_digits(t, start, b) {
        Some(n) => Ok(n),
        None => {
            proof {
                reveal_strlit("invalid DAP Content-Length: number too large to fit in target type");
                reveal_strlit("number too large to fit in target type");
            }
            Err(
                Diagnostic::new(
                    "dap",
                    String::from_str("invalid DAP Content-Length: number too large to fit in target type"),
                ),
            )
        },
    }
}

/// Reads one header line, its line break included or not.
pub fn parse_header_line(line: &str) -> (r: Result<HeaderLine, Diagnostic>)
    ensures
        header_line_outcome(line@, r),
        r matches Err(d) ==> d.kind@ == "dap"@,
{
    proof {
        reveal_strlit("Content-Length:");
    }
    let t = chars_of(line);
    let e = strip_line_break(&t);
    let ghost h = t@.subrange(0, e as int);
    if e == 0 {
        return Ok(HeaderLine::End);
    }
    let key = chars_of("Content-Length:");
    if !crate::text::range_starts_with(&t, 0, e, &key) {
        proof {
            if 15 <= e {
                assert(h.subrange(0, 15) =~= t@.subrange(0, 15));
            }
        }
        return Ok(HeaderLine::Other);
    }
    proof {
        assert(h.subrange(0, 15) =~= t@.subrange(0, 15));
    }
    let (a, b) = trim(&t, key.len(), e);
    let r = parse_length_value(&t, a, b);
    proof {
        assert(crate::text::is_trim_of(h, 15, h.len() as int, a as int, b as int));
        assert(h.subrange(a as int, b as int) =~= t@.subrange(a as int, b as int));
    }
    match r {
        Ok(n) => Ok(HeaderLine::ContentLength(n)),
        Err(d) => Err(d),
    }
}

/// A body length is accepted up to `MAX_DAP_FRAME_SIZE` bytes.
pub fn check_frame_length(length: Option<usize>) -> (r: Result<usize, Diagnostic>)
    ensures
        r matches Ok(n) ==> length == Some(n) && n <= MAX_DAP_FRAME_SIZE,
        r is Ok <==> (length matches Some(n) && n <= MAX_DAP_FRAME_SIZE),
        r matches Err(d) ==> d.kind@ == "dap"@,
        length is None ==> (r matches Err(d) && d.message@ == "DAP message missing Content-Length header"@),
        length is Some && length->0 > MAX_DAP_FRAME_SIZE ==> (r matches Err(d) && d.message@
            == "DAP message Content-Length "@ + crate::text::decimal(length->0 as nat)
            + " exceeds maximum frame size 16777216"@),
{
    match length {
        None => Err(Diagnostic::new("dap", String::from_str("DAP message missing Content-Length header"))),
        Some(n) => {
            if n > MAX_DAP_FRAME_SIZE {
                Err(
                    Diagnostic::new(
                        "dap",
                        cat3("DAP message Content-Length ", usize_to_string(n).as_str(), " exceeds maximum frame size 16777216"),
                    ),
                )
            } else {
                Ok(n)
            }
        },
    }
}

/// A debug map is read only in the schema this adapter knows.
pub fn check_debug_map_schema(version: &str) -> (r: Result<(), Diagnostic>)
    ensures
        r is Ok <==> version@ == DEBUG_MAP_SCHEMA_VERSION@,
        r matches Err(d) ==> d.kind@ == "dap"@ && d.message@ == "unsupported debug map schema `"@ + version@
            + "`"@,
{
    let v = String::from_str(version);
    if crate::text::string_is(&v, DEBUG_MAP_SCHEMA_VERSION) {
        Ok(())
    } else {
        Err(Diagnostic::new("dap", cat3("unsupported debug map schema `", version, "`")))
    }
}

// ----- Requests and replies ----------------------------------------------------------

/// The arguments of a request that the adapter reads. `source_path` is the
/// breakpoint source (`source.path`) as the program around the adapter
/// resolved it on disk.
#[derive(Debug, Clone)]
pub struct DapArguments {
    pub program: Option<String>,
    pub package: Option<String>,
    pub source_path: Option<String>,
    /// The `line` of each requested breakpoint (0 where one gives none), when
    /// the request has a `breakpoints` list.
    pub breakpoint_lines: Option<Vec<u64>>,
}

/// A request: its sequence number, command and arguments.
#[derive(Debug, Clone)]
pub struct DapRequest {
    pub seq: i64,
    pub command: String,
    pub arguments: DapArguments,
}

/// The answer for one requested breakpoint.
#[derive(Debug, Clone)]
pub struct BreakpointReply {
    pub verified: bool,
    pub source: String,
    pub line: u64,
    pub message: Option<String>,
}

/// The body of a message.
#[derive(Debug, Clone)]
pub enum DapBody {
    /// The capabilities this adapter announces.
    Capabilities,
    Launched { project: String, package: Option<String>, binary: String, debug_map: String, statement_count: usize },
    Breakpoints(Vec<BreakpointReply>),
    /// An empty object.
    Empty,
    /// The one thread, `main`.
    Threads,
    /// No session: no sources.
    NoSources,
    LoadedSources { sources: Vec<String>, project: String, binary: String, debug_map: String },
    /// No stack frames.
    StackTrace,
    /// No scopes.
    Scopes,
    /// No variables.
    Variables,
    Error(Diagnostic),
}

/// A message the adapter sends.
#[derive(Debug, Clone)]
pub enum DapMessage {
    Response { seq: i64, request_seq: i64, success: bool, command: String, message: Option<String>, body: DapBody },
    Event { seq: i64, event: String, body: DapBody },
}

/// What the adapter does with a request: send these messages, or have the
/// program around it build `program` for debugging and then call `finish_launch`.
#[derive(Debug)]
pub enum DapAction {
    Reply(Vec<DapMessage>),
    Launch { request_seq: i64, program: String, package: Option<String> },
}

/// A debug build that a launch made: the binary, its statement count, and the
/// debug map written, with what reading it gave (its schema version and
/// mappings, sources as resolved on disk) or why it could not be read.
#[derive(Debug)]
pub struct LaunchBuild {
    pub binary: String,
    pub statement_count: usize,
    pub debug_map: Option<(String, Result<(String, Vec<SourceLine>), Diagnostic>)>,
}

/// The number that follows `last`, held at the largest value.
pub open spec fn next_seq(last: i64) -> i64 {
    if last < i64::MAX {
        (last + 1) as i64
    } else {
        i64::MAX
    }
}

/// `m` is the response numbered `seq` to request `request_seq` for `command`,
/// successful or not.
pub open spec fn response_to(m: DapMessage, seq: i64, request_seq: i64, command: Seq<char>, success: bool) -> bool {
    m matches DapMessage::Response { seq: s, request_seq: r, success: ok, command: c, .. } && s == seq && r
        == request_seq && ok == success && c@ == command
}

/// The body of a message.
pub open spec fn body_of(m: DapMessage) -> DapBody {
    match m {
        DapMessage::Response { body, .. } => body,
        DapMessage::Event { body, .. } => body,
    }
}

/// `m` answers request `request_seq` for `command` with the error `d`, its
/// message repeated at the top.
pub open spec fn error_response_to(m: DapMessage, seq: i64, request_seq: i64, command: Seq<char>, d: Diagnostic) -> bool {
    &&& response_to(m, seq, request_seq, command, false)
    &&& m matches DapMessage::Response { message: Some(msg), body: DapBody::Error(e), .. } && msg@ == d.message@
        && e == d
}

/// `m` answers request `request_seq` for `command` with an adapter error whose message is `text`.
pub open spec fn dap_error_to(m: DapMessage, seq: i64, request_seq: i64, command: Seq<char>, text: Seq<char>) -> bool {
    &&& response_to(m, seq, request_seq, command, false)
    &&& m matches DapMessage::Response { message: Some(msg), body: DapBody::Error(e), .. } && msg@ == text
        && e.message@ == text && e.kind@ == "dap"@
}

/// The replies to breakpoints at `lines` of `source`: one per line, verified
/// when the session's debug map lists the line, with a note when it does not.
pub open spec fn breakpoints_answered(
    session: Option<DebugSession>,
    source: Seq<char>,
    lines: Seq<u64>,
    replies: Seq<BreakpointReply>,
) -> bool {
    &&& replies.len() == lines.len()
    &&& forall|i: int|
        0 <= i < lines.len() ==> {
            let r = #[trigger] replies[i];
            &&& r.source@ == source
            &&& r.line == lines[i]
            &&& r.verified == match session {
                Some(s) => has_line(s.breakable_lines@, source, lines[i]),
                None => false,
            }
            &&& (r.message is Some <==> !r.verified)
            &&& r.message matches Some(m) ==> m@ == "No stage1 debug mapping exists for this source line"@
        }
}

/// The distinct sources of `s`'s breakable lines, in ascending order.
pub open spec fn sources_of(s: DebugSession, sources: Seq<String>) -> bool {
    &&& sources_sorted(sources)
    &&& forall|i: int| 0 <= i < sources.len() ==> has_source(s.breakable_lines@, (#[trigger] sources[i])@)
    &&& forall|j: int|
        0 <= j < s.breakable_lines@.len() ==> has_text(sources, (#[trigger] s.breakable_lines@[j]).source@)
}

/// The one message that answers a request other than `launch`, numbered
/// `seq`, given the session the adapter has.
pub open spec fn reply_for(session: Option<DebugSession>, request: DapRequest, seq: i64, m: DapMessage) -> bool {
    let c = request.command@;
    let rq = request.seq;
    match command_kind(c) {
        DapCommand::Initialize => response_to(m, seq, rq, c, true) && body_of(m) is Capabilities,
        DapCommand::SetBreakpoints => match request.arguments.source_path {
            None => dap_error_to(m, seq, rq, c, "setBreakpoints requires source.path"@),
            Some(p) => match request.arguments.breakpoint_lines {
                None => dap_error_to(m, seq, rq, c, "setBreakpoints requires breakpoints[]"@),
                Some(ls) => response_to(m, seq, rq, c, true) && (body_of(m) matches DapBody::Breakpoints(rs)
                    && breakpoints_answered(session, p@, ls@, rs@)),
            },
        },
        DapCommand::Acknowledge => response_to(m, seq, rq, c, true) && body_of(m) is Empty,
        DapCommand::Threads => response_to(m, seq, rq, c, true) && body_of(m) is Threads,
        DapCommand::LoadedSources => response_to(m, seq, rq, c, true) && match session {
            None => body_of(m) is NoSources,
            Some(s) => (body_of(m) matches DapBody::LoadedSources { sources, project, binary, debug_map }
                && sources_of(s, sources@) && project@ == s.project@ && binary@ == s.binary@ && debug_map@
                == s.debug_map@),
        },
        DapCommand::StackTrace => response_to(m, seq, rq, c, true) && body_of(m) is StackTrace,
        DapCommand::Scopes => response_to(m, seq, rq, c, true) && body_of(m) is Scopes,
        DapCommand::Variables => response_to(m, seq, rq, c, true) && body_of(m) is Variables,
        DapCommand::Unsupported => dap_error_to(
            m,
            seq,
            rq,
            c,
            "unsupported DAP command `"@ + c + "` in stage1 adapter"@,
        ),
        DapCommand::Launch => false,
    }
}

fn clone_opt(o: &Option<String>) -> (r: Option<String>)
    ensures
        r == *o,
{
    match o {
        Some(x) => Some(x.clone()),
        None => None,
    }
}

fn error_reply(adapter: &mut DebugAdapter, request_seq: i64, command: &String, d: Diagnostic) -> (m: DapMessage)
    ensures
        error_response_to(m, next_seq(old(adapter).last_seq()), request_seq, command@, d),
        final(adapter).last_seq() == next_seq(old(adapter).last_seq()),
        final(adapter).session_spec() == old(adapter).session_spec(),
{
    let seq = adapter.seq();
    let message = d.message.clone();
    DapMessage::Response { seq, request_seq, success: false, command: command.clone(), message: Some(message), body: DapBody::Error(d) }
}

fn success_reply(adapter: &mut DebugAdapter, request_seq: i64, command: &String, body: DapBody) -> (m: DapMessage)
    ensures
        response_to(m, next_seq(old(adapter).last_seq()), request_seq, command@, true),
        body_of(m) == body,
        final(adapter).last_seq() == next_seq(old(adapter).last_seq()),
        final(adapter).session_spec() == old(adapter).session_spec(),
{
    let seq = adapter.seq();
    DapMessage::Response { seq, request_seq, success: true, command: command.clone(), message: None, body }
}

fn breakpoint_replies(adapter: &DebugAdapter, source: &String, lines: &Vec<u64>) -> (rs: Vec<BreakpointReply>)
    ensures
        breakpoints_answered(adapter.session_spec(), source@, lines@, rs@),
{
    let mut out: Vec<BreakpointReply> = Vec::new();
    let mut i: usize = 0;
    while i < lines.len()
        invariant
            i <= lines@.len(),
            out@.len() == i,
            forall|j: int|
                0 <= j < i ==> {
                    let r = #[trigger] out@[j];
                    &&& r.source@ == source@
                    &&& r.line == lines@[j]
                    &&& r.verified == match adapter.session_spec() {
                        Some(s) => has_line(s.breakable_lines@, source@, lines@[j]),
                        None => false,
                    }
                    &&& (r.message is Some <==> !r.verified)
                    &&& r.message matches Some(m) ==> m@ == "No stage1 debug mapping exists for this source line"@
                },
        decreases lines@.len() - i,
    {
        let line = lines[i];
        let verified = adapter.breakpoint_verified(source, line);
        let message = if verified {
            None
        } else {
            Some(String::from_str("No stage1 debug mapping exists for this source line"))
        };
        out.push(BreakpointReply { verified, source: source.clone(), line, message });
        i = i + 1;
    }
    out
}

/// Decides what to do with a request. Every request but `launch` is answered
/// at once with one message (`reply_for`). A `launch` ends any session; with
/// a `program` it asks for a debug build, else it is answered with an error.
pub fn handle_request(adapter: &mut DebugAdapter, request: &DapRequest) -> (action: DapAction)
    ensures
        command_kind(request.command@) != DapCommand::Launch ==> {
            &&& action matches DapAction::Reply(v) && v@.len() == 1 && reply_for(
                old(adapter).session_spec(),
                *request,
                next_seq(old(adapter).last_seq()),
                v@[0],
            )
            &&& final(adapter).last_seq() == next_seq(old(adapter).last_seq())
            &&& final(adapter).session_spec() == old(adapter).session_spec()
        },
        command_kind(request.command@) == DapCommand::Launch ==> {
            &&& final(adapter).session_spec() is None
            &&& match request.arguments.program {
                None => action matches DapAction::Reply(v) && v@.len() == 1 && dap_error_to(
                    v@[0],
                    next_seq(old(adapter).last_seq()),
                    request.seq,
                    request.command@,
                    "launch requires arguments.program"@,
                ) && final(adapter).last_seq() == next_seq(old(adapter).last_seq()),
                Some(p) => action matches DapAction::Launch { request_seq, program, package }
                    && request_seq == request.seq && program@ == p@ && package == request.arguments.package
                    && final(adapter).last_seq() == old(adapter).last_seq(),
            }
        },
{
    let command = &request.command;
    let rq = request.seq;
    let kind = classify_command(command.as_str());
    proof {
        reveal_strlit("unsupported DAP command `");
    }
    match kind {
        DapCommand::Initialize => DapAction::Reply(vec![success_reply(adapter, rq, command, DapBody::Capabilities)]),
        DapCommand::Launch => {
            adapter.clear_session();
            match &request.arguments.program {
                Some(p) => DapAction::Launch {
                    request_seq: rq,
                    program: p.clone(),
                    package: clone_opt(&request.arguments.package),
                },
                None => {
                    let d = Diagnostic::new("dap", String::from_str("launch requires arguments.program"));
                    DapAction::Reply(vec![error_reply(adapter, rq, command, d)])
                },
            }
        },
        DapCommand::SetBreakpoints => {
            let m = match &request.arguments.source_path {
                None => {
                    let d = Diagnostic::new("dap", String::from_str("setBreakpoints requires source.path"));
                    error_reply(adapter, rq, command, d)
                },
                Some(p) => match &request.arguments.breakpoint_lines {
                    None => {
                        let d = Diagnostic::new("dap", String::from_str("setBreakpoints requires breakpoints[]"));
                        error_reply(adapter, rq, command, d)
                    },
                    Some(ls) => {
                        let rs = breakpoint_replies(adapter, p, ls);
                        success_reply(adapter, rq, command, DapBody::Breakpoints(rs))
                    },
                },
            };
            DapAction::Reply(vec![m])
        },
        DapCommand::Acknowledge => DapAction::Reply(vec![success_reply(adapter, rq, command, DapBody::Empty)]),
        DapCommand::Threads => DapAction::Reply(vec![success_reply(adapter, rq, command, DapBody::Threads)]),
        DapCommand::LoadedSources => {
            let body = match adapter.session() {
                None => DapBody::NoSources,
                Some(s) => DapBody::LoadedSources {
                    sources: loaded_sources(s),
                    project: s.project.clone(),
                    binary: s.binary.clone(),
                    debug_map: s.debug_map.clone(),
                },
            };
            DapAction::Reply(vec![success_reply(adapter, rq, command, body)])
        },
        DapCommand::StackTrace => DapAction::Reply(vec![success_reply(adapter, rq, command, DapBody::StackTrace)]),
        DapCommand::Scopes => DapAction::Reply(vec![success_reply(adapter, rq, command, DapBody::Scopes)]),
        DapCommand::Variables => DapAction::Reply(vec![success_reply(adapter, rq, command, DapBody::Variables)]),
        DapCommand::Unsupported => {
            let d = unsupported_command_error(command.as_str());
            DapAction::Reply(vec![error_reply(adapter, rq, command, d)])
        },
    }
}

/// Finishes a `launch` once the debug build was attempted: the build's error,
/// a missing debug map, a map that could not be read or has another schema
/// each answer the request with an error and leave no session; otherwise a
/// session starts on the map's lines, and the request is answered with the
/// launch details followed by the `initialized` event.
pub fn finish_launch(
    adapter: &mut DebugAdapter,
    request_seq: i64,
    program: &String,
    package: &Option<String>,
    outcome: Result<LaunchBuild, Diagnostic>,
) -> (v: Vec<DapMessage>)
    requires
        old(adapter).session_spec() is None,
    ensures
        match outcome {
            Err(d) => v@.len() == 1 && error_response_to(v@[0], next_seq(old(adapter).last_seq()), request_seq, "launch"@, d)
                && final(adapter).session_spec() is None,
            Ok(b) => match b.debug_map {
                None => v@.len() == 1 && dap_error_to(
                    v@[0],
                    next_seq(old(adapter).last_seq()),
                    request_seq,
                    "launch"@,
                    "debug launch did not produce a debug map"@,
                ) && final(adapter).session_spec() is None,
                Some((path, Err(d))) => v@.len() == 1 && error_response_to(
                    v@[0],
                    next_seq(old(adapter).last_seq()),
                    request_seq,
                    "launch"@,
                    d,
                ) && final(adapter).session_spec() is None,
                Some((path, Ok((schema, lines)))) => if schema@ != DEBUG_MAP_SCHEMA_VERSION@ {
                    v@.len() == 1 && dap_error_to(
                        v@[0],
                        next_seq(old(adapter).last_seq()),
                        request_seq,
                        "launch"@,
                        "unsupported debug map schema `"@ + schema@ + "`"@,
                    ) && final(adapter).session_spec() is None
                } else {
                    &&& v@.len() == 2
                    &&& response_to(v@[0], next_seq(old(adapter).last_seq()), request_seq, "launch"@, true)
                    &&& body_of(v@[0]) matches DapBody::Launched { project, package: pk, binary, debug_map, statement_count }
                        && project@ == program@ && pk == *package && binary@ == b.binary@ && debug_map@ == path@
                        && statement_count == b.statement_count
                    &&& v@[1] matches DapMessage::Event { seq, event, body: DapBody::Empty } && seq == next_seq(
                        next_seq(old(adapter).last_seq()),
                    ) && event@ == "initialized"@
                    &&& final(adapter).last_seq() == next_seq(next_seq(old(adapter).last_seq()))
                    &&& final(adapter).session_spec() matches Some(s) && s.project@ == program@ && s.package
                        == *package && s.binary@ == b.binary@ && s.debug_map@ == path@ && lines_sorted(
                        s.breakable_lines@,
                    ) && (forall|i: int|
                        0 <= i < s.breakable_lines@.len() ==> has_line(
                            lines@,
                            (#[trigger] s.breakable_lines@[i]).source@,
                            s.breakable_lines@[i].line,
                        )) && (forall|j: int|
                        0 <= j < lines@.len() ==> has_line(
                            s.breakable_lines@,
                            (#[trigger] lines@[j]).source@,
                            lines@[j].line,
                        ))
                }
            },
        },
        v@.len() == 1 ==> final(adapter).last_seq() == next_seq(old(adapter).last_seq()),
{
    let command = String::from_str("launch");
    let b = match outcome {
        Err(d) => return vec![error_reply(adapter, request_seq, &command, d)],
        Ok(b) => b,
    };
    let (path, read) = match b.debug_map {
        None => {
            let d = Diagnostic::new("dap", String::from_str("debug launch did not produce a debug map"));
            return vec![error_reply(adapter, request_seq, &command, d)];
        },
        Some(x) => x,
    };
    let (schema, lines) = match read {
        Err(d) => return vec![error_reply(adapter, request_seq, &command, d)],
        Ok(x) => x,
    };
    if let Err(d) = check_debug_map_schema(schema.as_str()) {
        return vec![error_reply(adapter, request_seq, &command, d)];
    }
    let breakable_lines = breakable_lines_from(&lines);
    let session = DebugSession {
        project: program.clone(),
        package: clone_opt(package),
        binary: b.binary.clone(),
        debug_map: path.clone(),
        breakable_lines,
    };
    adapter.start_session(session);
    let launched = DapBody::Launched {
        project: program.clone(),
        package: clone_opt(package),
        binary: b.binary,
        debug_map: path,
        statement_count: b.statement_count,
    };
    let first = success_reply(adapter, request_seq, &command, launched);
    let seq = adapter.seq();
    let second = DapMessage::Event { seq, event: String::from_str("initialized"), body: DapBody::Empty };
    vec![first, second]
}

} // verus!
