//! Redirect resolver: folds a list of redirections, left to right, into the
//! three handles a stage starts with.
//!
//! Handles are descriptions, not open files: the resolver decides, and
//! whoever launches the stage opens the files that the resolution lists,
//! in order. A file handle names the entry of the list that opened it, so
//! two handles are one open file exactly when they name the same entry.

use vstd::prelude::*;
use vstd::string::StringExecFns;
use crate::redirect::{is_null_device, is_null_device_spec, RedirectTarget, Redirection, RedirectionView, TargetView};
use crate::text::{push_signed_decimal, push_str, string_of};

verus! {

/// Where a stage reads from.
#[derive(Debug, Clone, Copy, PartialEq, Eq, Structural)]
pub enum InputHandle {
    /// The shell's own stdin.
    Inherit,
    /// The reading end of the pipe from the previous stage.
    Pipe,
    /// The file that the redirection at `entry` opens for reading.
    File { entry: usize },
    /// The text of the here-string at `entry`, followed by a newline.
    HereString { entry: usize },
}

/// Where a stage writes to.
#[derive(Debug, Clone, Copy, PartialEq, Eq, Structural)]
pub enum OutputHandle {
    /// The shell's own stdout or stderr.
    Inherit,
    /// The null sink.
    Null,
    /// The writing end of the pipe to the next stage.
    Pipe,
    /// The file that the redirection at `entry` opens for writing.
    File { entry: usize },
}

/// The handles that a stage has where no redirection says otherwise.
#[derive(Debug, Clone, Copy, PartialEq, Eq, Structural)]
pub struct RedirectionDefaults {
    pub stdin: InputHandle,
    pub stdout: OutputHandle,
    pub stderr: OutputHandle,
}

/// How a file is opened.
#[derive(Debug, Clone, Copy, PartialEq, Eq, Structural)]
pub enum OpenMode {
    /// Write, create, truncate.
    Truncate,
    /// Write, create, append.
    Append,
    /// Read.
    Read,
}

/// A file to open: the path of the redirection at `entry`, in `mode`.
#[derive(Debug, Clone, Copy, PartialEq, Eq, Structural)]
pub struct FileOpen {
    pub entry: usize,
    pub mode: OpenMode,
}

/// The outcome of a resolution.
#[derive(Debug)]
pub struct ResolvedRedirections {
    pub stdin: InputHandle,
    pub stdout: OutputHandle,
    pub stderr: OutputHandle,
    /// Whether a redirection set stdout.
    pub stdout_redirected: bool,
    /// The files to open, in the order of their redirections.
    pub opens: Vec<FileOpen>,
}

/// The mathematical value of a [`ResolvedRedirections`].
pub struct Resolution {
    pub stdin: InputHandle,
    pub stdout: OutputHandle,
    pub stderr: OutputHandle,
    pub stdout_redirected: bool,
    pub opens: Seq<FileOpen>,
}

impl View for ResolvedRedirections {
    type V = Resolution;

    open spec fn view(&self) -> Resolution {
        Resolution {
            stdin: self.stdin,
            stdout: self.stdout,
            stderr: self.stderr,
            stdout_redirected: self.stdout_redirected,
            opens: self.opens@,
        }
    }
}

impl Resolution {
    /// The state before any redirection is applied.
    pub open spec fn start(d: RedirectionDefaults) -> Resolution {
        Resolution {
            stdin: d.stdin,
            stdout: d.stdout,
            stderr: d.stderr,
            stdout_redirected: false,
            opens: Seq::empty(),
        }
    }

    /// The three handles, as defaults for another resolution.
    pub open spec fn handles(self) -> RedirectionDefaults {
        RedirectionDefaults { stdin: self.stdin, stdout: self.stdout, stderr: self.stderr }
    }

    /// The handle for writing to `path`: the null sink for the null
    /// device, else the file that `entry` opens.
    pub open spec fn output_for(path: Seq<char>, entry: usize) -> OutputHandle {
        if is_null_device_spec(path) {
            OutputHandle::Null
        } else {
            OutputHandle::File { entry }
        }
    }

    /// The files to open once `path` is to be written in `mode`.
    pub open spec fn opens_with(self, path: Seq<char>, entry: usize, mode: OpenMode) -> Seq<FileOpen> {
        if is_null_device_spec(path) {
            self.opens
        } else {
            self.opens.push(FileOpen { entry, mode })
        }
    }

    /// The state after the redirection `r`, which stands at `entry`, or
    /// `None` if the combination of target and descriptor is not supported.
    pub open spec fn apply(self, r: RedirectionView, entry: usize) -> Option<Resolution> {
        match r.target {
            TargetView::Fd(n) => {
                if n == r.fd {
                    Some(self)
                } else if n == 1 && r.fd == 2 {
                    Some(Resolution { stderr: self.stdout, ..self })
                } else if n == 2 && r.fd == 1 {
                    Some(Resolution { stdout: self.stderr, stdout_redirected: true, ..self })
                } else {
                    None
                }
            },
            TargetView::File(path) => {
                if r.fd == 1 {
                    Some(
                        Resolution {
                            stdout: Self::output_for(path, entry),
                            stdout_redirected: true,
                            opens: self.opens_with(path, entry, OpenMode::Truncate),
                            ..self
                        },
                    )
                } else if r.fd == 2 {
                    Some(
                        Resolution {
                            stderr: Self::output_for(path, entry),
                            opens: self.opens_with(path, entry, OpenMode::Truncate),
                            ..self
                        },
                    )
                } else {
                    None
                }
            },
            TargetView::FileAppend(path) => {
                if r.fd == 1 {
                    Some(
                        Resolution {
                            stdout: Self::output_for(path, entry),
                            stdout_redirected: true,
                            opens: self.opens_with(path, entry, OpenMode::Append),
                            ..self
                        },
                    )
                } else if r.fd == 2 {
                    Some(
                        Resolution {
                            stderr: Self::output_for(path, entry),
                            opens: self.opens_with(path, entry, OpenMode::Append),
                            ..self
                        },
                    )
                } else {
                    None
                }
            },
            TargetView::FileRead(path) => {
                if r.fd == 0 {
                    Some(
                        Resolution {
                            stdin: InputHandle::File { entry },
                            opens: self.opens.push(FileOpen { entry, mode: OpenMode::Read }),
                            ..self
                        },
                    )
                } else {
                    None
                }
            },
            TargetView::HereString(text) => {
                if r.fd == 0 {
                    Some(Resolution { stdin: InputHandle::HereString { entry }, ..self })
                } else {
                    None
                }
            },
        }
    }
}

/// The state after the first `k` redirections of `rs`, started from the
/// defaults `d`; or the place of the first unsupported one among them.
pub open spec fn resolve_prefix(rs: Seq<RedirectionView>, d: RedirectionDefaults, k: int) -> Result<
    Resolution,
    int,
>
    decreases k,
{
    if k <= 0 {
        Ok(Resolution::start(d))
    } else {
        match resolve_prefix(rs, d, k - 1) {
            Err(e) => Err(e),
            Ok(st) => match st.apply(rs[k - 1], (k - 1) as usize) {
                Some(next) => Ok(next),
                None => Err(k - 1),
            },
        }
    }
}

/// The outcome of resolving the whole list `rs` on top of `d`.
pub open spec fn resolve_spec(rs: Seq<RedirectionView>, d: RedirectionDefaults) -> Result<
    Resolution,
    int,
> {
    resolve_prefix(rs, d, rs.len() as int)
}

// ── Messages ─────────────────────────────────────────────────────────────

/// The text that formatting a string with `{:?}` gives: the string in
/// double quotes, with the escapes of Rust's debug output.
pub uninterp spec fn debug_quoted(s: Seq<char>) -> Seq<char>;

/// Trusted: wraps `format!("{:?}", s)` on a `str`, whose result is a
/// function of the text alone, named [`debug_quoted`].
#[verifier::external_body]
fn quote_debug(s: &str) -> (r: String)
    ensures
        r@ == debug_quoted(s@),
{
    format!("{:?}", s)
}

/// How a target is written out in a message, where `quoted` is its text
/// operand in debug quotes.
pub open spec fn target_text(target: TargetView, quoted: Seq<char>) -> Seq<char> {
    match target {
        TargetView::File(_) => "File("@ + quoted + ")"@,
        TargetView::FileAppend(_) => "FileAppend("@ + quoted + ")"@,
        TargetView::FileRead(_) => "FileRead("@ + quoted + ")"@,
        TargetView::Fd(n) => "Fd("@ + crate::text::signed_decimal(n as int) + ")"@,
        TargetView::HereString(_) => "HereString("@ + quoted + ")"@,
    }
}

/// The text operand of a target; empty for a descriptor.
pub open spec fn target_operand(target: TargetView) -> Seq<char> {
    match target {
        TargetView::File(p) => p,
        TargetView::FileAppend(p) => p,
        TargetView::FileRead(p) => p,
        TargetView::Fd(_) => Seq::empty(),
        TargetView::HereString(t) => t,
    }
}

/// The message that rejects a redirection, where `quoted` is its text
/// operand in debug quotes.
pub open spec fn unsupported_text(r: RedirectionView, quoted: Seq<char>) -> Seq<char> {
    "jsh: unsupported redirection: fd "@ + crate::text::signed_decimal(r.fd as int) + " -> "@
        + target_text(r.target, quoted)
}

/// The message that rejects the redirection `r`.
pub open spec fn unsupported_message(r: RedirectionView) -> Seq<char> {
    unsupported_text(r, debug_quoted(target_operand(r.target)))
}

/// Composes the message that rejects `r`, given its text operand in debug
/// quotes.
pub fn compose_unsupported(r: &Redirection, quoted: &str) -> (msg: String)
    ensures
        msg@ == unsupported_text(r@, quoted@),
{
    let mut out: Vec<char> = Vec::new();
    push_str(&mut out, "jsh: unsupported redirection: fd ");
    push_signed_decimal(&mut out, r.fd as i64);
    push_str(&mut out, " -> ");
    let ghost head = out@;
    match &r.target {
        RedirectTarget::File(_) => {
            push_str(&mut out, "File(");
            push_str(&mut out, quoted);
            push_str(&mut out, ")");
            assert(out@ =~= head + ("File("@ + quoted@ + ")"@));
        },
        RedirectTarget::FileAppend(_) => {
            push_str(&mut out, "FileAppend(");
            push_str(&mut out, quoted);
            push_str(&mut out, ")");
            assert(out@ =~= head + ("FileAppend("@ + quoted@ + ")"@));
        },
        RedirectTarget::FileRead(_) => {
            push_str(&mut out, "FileRead(");
            push_str(&mut out, quoted);
            push_str(&mut out, ")");
            assert(out@ =~= head + ("FileRead("@ + quoted@ + ")"@));
        },
        RedirectTarget::Fd(n) => {
            push_str(&mut out, "Fd(");
            push_signed_decimal(&mut out, *n as i64);
            push_str(&mut out, ")");
            assert(out@ =~= head + ("Fd("@ + crate::text::signed_decimal(*n as int) + ")"@));
        },
        RedirectTarget::HereString(_) => {
            push_str(&mut out, "HereString(");
            push_str(&mut out, quoted);
            push_str(&mut out, ")");
            assert(out@ =~= head + ("HereString("@ + quoted@ + ")"@));
        },
    }
    assert(head =~= "jsh: unsupported redirection: fd "@ + crate::text::signed_decimal(r.fd as int)
        + " -> "@);
    string_of(&out)
}

/// The message that rejects an unsupported redirection.
pub fn unsupported_redirection(r: &Redirection) -> (msg: String)
    ensures
        msg@ == unsupported_message(r@),
{
    let quoted = match &r.target {
        RedirectTarget::File(p) => quote_debug(p.as_str()),
        RedirectTarget::FileAppend(p) => quote_debug(p.as_str()),
        RedirectTarget::FileRead(p) => quote_debug(p.as_str()),
        RedirectTarget::Fd(_) => {
            let empty = String::from_str("");
            proof {
                reveal_strlit("");
            }
            assert(empty@ =~= Seq::<char>::empty());
            quote_debug(empty.as_str())
        },
        RedirectTarget::HereString(t) => quote_debug(t.as_str()),
    };
    compose_unsupported(r, quoted.as_str())
}

// ── The resolver ─────────────────────────────────────────────────────────

fn output_for(path: &String, entry: usize, mode: OpenMode, opens: &mut Vec<FileOpen>) -> (h: OutputHandle)
    ensures
        h == Resolution::output_for(path@, entry),
        final(opens)@ == if is_null_device_spec(path@) {
            old(opens)@
        } else {
            old(opens)@.push(FileOpen { entry, mode })
        },
{
    if is_null_device(path.as_str()) {
        OutputHandle::Null
    } else {
        opens.push(FileOpen { entry, mode });
        OutputHandle::File { entry }
    }
}

/// Applies one redirection, which stands at `entry`, to the state.
/// Returns whether the redirection is supported; if not, the state is
/// left as it was.
fn apply_redirection(st: &mut ResolvedRedirections, r: &Redirection, entry: usize) -> (ok: bool)
    ensures
        match old(st)@.apply(r@, entry) {
            Some(next) => ok && final(st)@ == next,
            None => !ok && final(st)@ == old(st)@,
        },
{
    match &r.target {
        RedirectTarget::Fd(n) => {
            if *n == r.fd {
                true
            } else if *n == 1 && r.fd == 2 {
                st.stderr = st.stdout;
                true
            } else if *n == 2 && r.fd == 1 {
                st.stdout = st.stderr;
                st.stdout_redirected = true;
                true
            } else {
                false
            }
        },
        RedirectTarget::File(path) => {
            if r.fd == 1 {
                st.stdout = output_for(path, entry, OpenMode::Truncate, &mut st.opens);
                st.stdout_redirected = true;
                true
            } else if r.fd == 2 {
                st.stderr = output_for(path, entry, OpenMode::Truncate, &mut st.opens);
                true
            } else {
                false
            }
        },
        RedirectTarget::FileAppend(path) => {
            if r.fd == 1 {
                st.stdout = output_for(path, entry, OpenMode::Append, &mut st.opens);
                st.stdout_redirected = true;
                true
            } else if r.fd == 2 {
                st.stderr = output_for(path, entry, OpenMode::Append, &mut st.opens);
                true
            } else {
                false
            }
        },
        RedirectTarget::FileRead(_) => {
            if r.fd == 0 {
                st.stdin = InputHandle::File { entry };
                st.opens.push(FileOpen { entry, mode: OpenMode::Read });
                true
            } else {
                false
            }
        },
        RedirectTarget::HereString(_) => {
            if r.fd == 0 {
                st.stdin = InputHandle::HereString { entry };
                true
            } else {
                false
            }
        },
    }
}

/// Resolves a list of redirections on top of the defaults, left to right.
///
/// Each entry replaces the handle of its descriptor: a file redirection by
/// the file it opens (the null sink for the null device), `2>&1` by the
/// handle stdout has at that point, `1>&2` by the handle stderr has at
/// that point, a here-string by its text; a descriptor duplicated onto
/// itself changes nothing. Any other combination fails, and the error
/// names the first such entry.
pub fn resolve_redirections(redirections: &[Redirection], defaults: RedirectionDefaults) -> (r: Result<
    ResolvedRedirections,
    String,
>)
    ensures
        match resolve_spec(redirections.deep_view(), defaults) {
            Ok(res) => r is Ok && r->Ok_0@ == res,
            Err(k) => r is Err && 0 <= k < redirections.len() && r->Err_0@ == unsupported_message(
                redirections[k]@,
            ),
        },
{
    let ghost rs = redirections.deep_view();
    let mut st = ResolvedRedirections {
        stdin: defaults.stdin,
        stdout: defaults.stdout,
        stderr: defaults.stderr,
        stdout_redirected: false,
        opens: Vec::new(),
    };
    assert(st@ == Resolution::start(defaults));
    let mut i: usize = 0;
    while i < redirections.len()
        invariant
            i <= redirections.len(),
            rs == redirections.deep_view(),
            resolve_prefix(rs, defaults, i as int) == Ok::<Resolution, int>(st@),
        decreases redirections.len() - i,
    {
        assert(rs[i as int] == redirections[i as int]@);
        if !apply_redirection(&mut st, &redirections[i], i) {
            proof {
                lemma_error_persists(rs, defaults, i + 1, rs.len() as int);
            }
            return Err(unsupported_redirection(&redirections[i]));
        }
        i += 1;
    }
    Ok(st)
}

/// Once a prefix has failed, every longer prefix fails at the same place.
proof fn lemma_error_persists(rs: Seq<RedirectionView>, d: RedirectionDefaults, k: int, n: int)
    requires
        k <= n,
        resolve_prefix(rs, d, k) is Err,
    ensures
        resolve_prefix(rs, d, n) == resolve_prefix(rs, d, k),
    decreases n - k,
{
    if k < n {
        lemma_error_persists(rs, d, k, n - 1);
    }
}

/// A resolution that succeeds has succeeded on every prefix.
proof fn lemma_prefix_ok(rs: Seq<RedirectionView>, d: RedirectionDefaults, k: int, n: int)
    requires
        k <= n,
        resolve_prefix(rs, d, n) is Ok,
    ensures
        resolve_prefix(rs, d, k) is Ok,
    decreases n - k,
{
    if k < n && resolve_prefix(rs, d, k) is Err {
        lemma_error_persists(rs, d, k, n);
    }
}


// ── Laws ─────────────────────────────────────────────────────────────────

/// Where the handle of an output descriptor comes from.
pub enum Origin {
    /// A redirection of the list set it, to a handle that the list alone
    /// determines.
    Replaced,
    /// It is the handle that stdout had at the start.
    InitialStdout,
    /// It is the handle that stderr had at the start.
    InitialStderr,
}

/// Where the three handles come from.
pub struct Origins {
    pub stdin_set: bool,
    pub stdout: Origin,
    pub stderr: Origin,
}

impl Origins {
    pub open spec fn start() -> Origins {
        Origins { stdin_set: false, stdout: Origin::InitialStdout, stderr: Origin::InitialStderr }
    }

    /// The origins after the redirection `r`, where it is supported.
    pub open spec fn apply(self, r: RedirectionView) -> Origins {
        match r.target {
            TargetView::Fd(n) => {
                if n == r.fd {
                    self
                } else if n == 1 && r.fd == 2 {
                    Origins { stderr: self.stdout, ..self }
                } else if n == 2 && r.fd == 1 {
                    Origins { stdout: self.stderr, ..self }
                } else {
                    self
                }
            },
            TargetView::File(_) | TargetView::FileAppend(_) => {
                if r.fd == 1 {
                    Origins { stdout: Origin::Replaced, ..self }
                } else if r.fd == 2 {
                    Origins { stderr: Origin::Replaced, ..self }
                } else {
                    self
                }
            },
            TargetView::FileRead(_) | TargetView::HereString(_) => {
                if r.fd == 0 {
                    Origins { stdin_set: true, ..self }
                } else {
                    self
                }
            },
        }
    }
}

/// Where the handles come from after the first `k` redirections of `rs`.
pub open spec fn origins_prefix(rs: Seq<RedirectionView>, k: int) -> Origins
    decreases k,
{
    if k <= 0 {
        Origins::start()
    } else {
        origins_prefix(rs, k - 1).apply(rs[k - 1])
    }
}

/// The output handle of the given origin: `set` where the list set it,
/// else the initial handle that it copies.
pub open spec fn handle_from(origin: Origin, set: OutputHandle, d: RedirectionDefaults) -> OutputHandle {
    match origin {
        Origin::Replaced => set,
        Origin::InitialStdout => d.stdout,
        Origin::InitialStderr => d.stderr,
    }
}

/// Resolution is a substitution: whether a list resolves, which files it
/// opens and whether it redirects stdout do not depend on the defaults,
/// and each resulting handle is either set by the list, the same whatever
/// the defaults, or a copy of one default.
pub proof fn lemma_resolution_follows_defaults(
    rs: Seq<RedirectionView>,
    d: RedirectionDefaults,
    e: RedirectionDefaults,
    k: int,
)
    requires
        resolve_prefix(rs, d, k) is Ok,
    ensures
        resolve_prefix(rs, e, k) is Ok,
        ({
            let a = resolve_prefix(rs, d, k)->Ok_0;
            let b = resolve_prefix(rs, e, k)->Ok_0;
            let o = origins_prefix(rs, k);
            &&& a.stdin == if o.stdin_set { a.stdin } else { d.stdin }
            &&& b.stdin == if o.stdin_set { a.stdin } else { e.stdin }
            &&& a.stdout == handle_from(o.stdout, a.stdout, d)
            &&& b.stdout == handle_from(o.stdout, a.stdout, e)
            &&& a.stderr == handle_from(o.stderr, a.stderr, d)
            &&& b.stderr == handle_from(o.stderr, a.stderr, e)
            &&& b.stdout_redirected == a.stdout_redirected
            &&& b.opens == a.opens
        }),
    decreases k,
{
    if k > 0 {
        lemma_resolution_follows_defaults(rs, d, e, k - 1);
    }
}

/// Whether resolving `rs` on top of `d` leaves no output handle that
/// copies a default which the list then replaced by another handle.
pub open spec fn settled(rs: Seq<RedirectionView>, d: RedirectionDefaults) -> bool {
    let t = resolve_spec(rs, d)->Ok_0;
    let o = origins_prefix(rs, rs.len() as int);
    &&& o.stdout is InitialStderr ==> t.stderr == d.stderr
    &&& o.stderr is InitialStdout ==> t.stdout == d.stdout
}

/// Resolving a list on top of its own result gives that result again,
/// exactly where the list is settled on the defaults: resolution is
/// idempotent unless a handle copies a default (as `2>&1` does) that a
/// later entry replaces. The files to open and the mark on stdout are the
/// same in every case.
pub proof fn lemma_resolution_idempotent(rs: Seq<RedirectionView>, d: RedirectionDefaults)
    requires
        resolve_spec(rs, d) is Ok,
    ensures
        resolve_spec(rs, resolve_spec(rs, d)->Ok_0.handles()) is Ok,
        ({
            let once = resolve_spec(rs, d)->Ok_0;
            let twice = resolve_spec(rs, once.handles())->Ok_0;
            &&& twice.handles() == once.handles() <==> settled(rs, d)
            &&& twice.opens == once.opens
            &&& twice.stdout_redirected == once.stdout_redirected
        }),
{
    let once = resolve_spec(rs, d)->Ok_0;
    lemma_resolution_follows_defaults(rs, d, once.handles(), rs.len() as int);
}

/// Whether the redirection replaces the handle of stdout.
pub open spec fn sets_stdout(r: RedirectionView) -> bool {
    r.fd == 1 && !(r.target matches TargetView::Fd(n) && n == 1)
}

/// Whether the redirection replaces the handle of stderr.
pub open spec fn sets_stderr(r: RedirectionView) -> bool {
    r.fd == 2 && !(r.target matches TargetView::Fd(n) && n == 2)
}

/// Whether the redirection sends stdout to a file that is opened.
pub open spec fn opens_stdout_file(r: RedirectionView) -> bool {
    r.fd == 1 && match r.target {
        TargetView::File(path) => !is_null_device_spec(path),
        TargetView::FileAppend(path) => !is_null_device_spec(path),
        _ => false,
    }
}

/// The files are opened in the order of their entries, each entry at most
/// once, and only entries of the prefix.
proof fn lemma_opens_ascend(rs: Seq<RedirectionView>, d: RedirectionDefaults, k: int)
    requires
        0 <= k <= usize::MAX,
        resolve_prefix(rs, d, k) is Ok,
    ensures
        ({
            let opens = resolve_prefix(rs, d, k)->Ok_0.opens;
            &&& forall|a: int| 0 <= a < opens.len() ==> (#[trigger] opens[a]).entry < k
            &&& forall|a: int, b: int|
                0 <= a < b < opens.len() ==> (#[trigger] opens[a]).entry < (#[trigger] opens[b]).entry
        }),
    decreases k,
{
    if k > 0 {
        lemma_opens_ascend(rs, d, k - 1);
    }
}

/// What was resolved at an entry stays while later entries leave the two
/// output descriptors alone.
proof fn lemma_outputs_stay(rs: Seq<RedirectionView>, d: RedirectionDefaults, from: int, to: int)
    requires
        0 <= from <= to,
        resolve_prefix(rs, d, to) is Ok,
        forall|k: int| from <= k < to ==> !sets_stdout(#[trigger] rs[k]),
    ensures
        resolve_prefix(rs, d, from) is Ok,
        resolve_prefix(rs, d, to)->Ok_0.stdout == resolve_prefix(rs, d, from)->Ok_0.stdout,
        (forall|k: int| from <= k < to ==> !sets_stderr(#[trigger] rs[k])) ==> resolve_prefix(
            rs,
            d,
            to,
        )->Ok_0.stderr == resolve_prefix(rs, d, from)->Ok_0.stderr,
    decreases to - from,
{
    if from < to {
        lemma_outputs_stay(rs, d, from, to - 1);
        assert(!sets_stdout(rs[to - 1]));
        if forall|k: int| from <= k < to ==> !sets_stderr(#[trigger] rs[k]) {
            assert(!sets_stderr(rs[to - 1]));
        }
    }
}

/// `2>&1` after a file redirection of stdout makes stderr the same open
/// file as stdout: where the entry at `i` sends stdout to a file, the
/// entry at `j`, after it, is `2>&1`, nothing in between replaces stdout
/// and nothing after replaces either, both handles are the file that the
/// entry at `i` opens. That file is opened once, so the two share one
/// open file and neither write clobbers the other.
pub proof fn lemma_stderr_joins_stdout_file(
    rs: Seq<RedirectionView>,
    d: RedirectionDefaults,
    i: int,
    j: int,
)
    requires
        0 <= i < j < rs.len() <= usize::MAX,
        opens_stdout_file(rs[i]),
        rs[j] == (RedirectionView { fd: 2, target: TargetView::Fd(1) }),
        forall|k: int| i < k < rs.len() ==> !sets_stdout(#[trigger] rs[k]),
        forall|k: int| j < k < rs.len() ==> !sets_stderr(#[trigger] rs[k]),
        resolve_spec(rs, d) is Ok,
    ensures
        ({
            let res = resolve_spec(rs, d)->Ok_0;
            &&& res.stdout == OutputHandle::File { entry: i as usize }
            &&& res.stderr == OutputHandle::File { entry: i as usize }
            &&& exists|a: int| 0 <= a < res.opens.len() && res.opens[a].entry == i
            &&& forall|a: int, b: int|
                0 <= a < res.opens.len() && 0 <= b < res.opens.len() && res.opens[a].entry == i
                    && res.opens[b].entry == i ==> a == b
        }),
{
    let n = rs.len() as int;
    let res = resolve_spec(rs, d)->Ok_0;
    // After the entry at `j`, both descriptors are what stdout was then.
    lemma_outputs_stay(rs, d, j + 1, n);
    lemma_prefix_ok(rs, d, j, n);
    lemma_outputs_stay(rs, d, i + 1, j);
    lemma_prefix_ok(rs, d, i, n);
    let at_i = resolve_prefix(rs, d, i + 1)->Ok_0;
    let at_j = resolve_prefix(rs, d, j)->Ok_0;
    let after_j = resolve_prefix(rs, d, j + 1)->Ok_0;
    assert(at_i.stdout == OutputHandle::File { entry: i as usize });
    assert(at_j.stdout == at_i.stdout);
    assert(after_j.stderr == at_j.stdout);
    assert(after_j.stdout == at_j.stdout);
    // The open of entry `i` is still listed at the end, and only once.
    lemma_opens_kept(rs, d, i + 1, n);
    lemma_opens_ascend(rs, d, n);
    let before = resolve_prefix(rs, d, i)->Ok_0;
    let a = before.opens.len() as int;
    assert(at_i.opens[a].entry == i);
    assert(res.opens[a] == at_i.opens[a]);
    assert forall|x: int, y: int|
        0 <= x < res.opens.len() && 0 <= y < res.opens.len() && res.opens[x].entry == i
            && res.opens[y].entry == i implies x == y by {
        if x < y {
            assert(res.opens[x].entry < res.opens[y].entry);
        } else if y < x {
            assert(res.opens[y].entry < res.opens[x].entry);
        }
    }
}

/// The files listed after a prefix stay listed, at their places, after a
/// longer one.
proof fn lemma_opens_kept(rs: Seq<RedirectionView>, d: RedirectionDefaults, from: int, to: int)
    requires
        0 <= from <= to,
        resolve_prefix(rs, d, to) is Ok,
    ensures
        resolve_prefix(rs, d, from) is Ok,
        ({
            let early = resolve_prefix(rs, d, from)->Ok_0.opens;
            let late = resolve_prefix(rs, d, to)->Ok_0.opens;
            early.len() <= late.len() && forall|a: int|
                0 <= a < early.len() ==> #[trigger] late[a] == early[a]
        }),
    decreases to - from,
{
    if from < to {
        lemma_opens_kept(rs, d, from, to - 1);
    }
}

} // verus!
