//! Git smart HTTP: the decisions of the `info/refs`, `git-upload-pack` and
//! `git-receive-pack` exchanges, as a state machine that the server drives.
//!
//! The server performs each [`GitStep`] it is given (a file-system check, a
//! `git` run, reading the request body) and reports the outcome as a
//! [`GitEvent`]; the exchange answers with the next step, until a step that
//! is a response.
use vstd::prelude::*;
use vstd::utf8::encode_utf8;
use crate::numfmt::{hex4, hex4_chars};
use crate::paths::{join_path, without_leading_slashes, join_paths, trim_leading_slashes};
use crate::text::{append_str, append_chars, string_of};
use crate::scanner::RepoScanner;
use std::sync::Arc;

verus! {

/// Which exchange a request starts.
#[derive(PartialEq, Eq, Structural, Clone, Copy)]
pub enum GitOp {
    /// `GET .../info/refs?service=...`
    InfoRefs,
    /// `POST .../git-upload-pack` (fetch).
    UploadPack,
    /// `POST .../git-receive-pack` (push).
    ReceivePack,
}

/// What the server is asked to do next.
pub enum GitStep {
    /// Report whether `path` exists.
    CheckExists { path: String },
    /// Create the parent directories of `path` and run `git init --bare path`.
    CreateRepository { path: String },
    /// Run `git <command> --stateless-rpc --advertise-refs <path>` and report its output.
    Advertise { command: String, path: String },
    /// Read the whole request body.
    ReadBody,
    /// Spawn `git <service> --stateless-rpc <path>`, write `input` to it, and report.
    RunRpc { service: String, path: String, input: Vec<u8> },
    /// Answer with a plain-text message.
    Reply { status: u16, message: String },
    /// Answer 200 with this content type, `Cache-Control: no-cache` and this body.
    SendAdvertisement { content_type: String, body: Vec<u8> },
    /// Answer 200 with this content type and `Cache-Control: no-cache`,
    /// streaming the standard output of the spawned `git`.
    StreamRpc { content_type: String },
}

/// The plain value of a [`GitStep`].
pub enum GitStepView {
    CheckExists(Seq<char>),
    CreateRepository(Seq<char>),
    Advertise(Seq<char>, Seq<char>),
    ReadBody,
    RunRpc(Seq<char>, Seq<char>, Seq<u8>),
    Reply(u16, Seq<char>),
    SendAdvertisement(Seq<char>, Seq<u8>),
    StreamRpc(Seq<char>),
}

impl View for GitStep {
    type V = GitStepView;

    open spec fn view(&self) -> GitStepView {
        match self {
            GitStep::CheckExists { path } => GitStepView::CheckExists(path@),
            GitStep::CreateRepository { path } => GitStepView::CreateRepository(path@),
            GitStep::Advertise { command, path } => GitStepView::Advertise(command@, path@),
            GitStep::ReadBody => GitStepView::ReadBody,
            GitStep::RunRpc { service, path, input } => GitStepView::RunRpc(
                service@,
                path@,
                input@,
            ),
            GitStep::Reply { status, message } => GitStepView::Reply(*status, message@),
            GitStep::SendAdvertisement { content_type, body } => GitStepView::SendAdvertisement(
                content_type@,
                body@,
            ),
            GitStep::StreamRpc { content_type } => GitStepView::StreamRpc(content_type@),
        }
    }
}

/// How creating a missing repository went.
#[derive(PartialEq, Eq, Structural, Clone, Copy)]
pub enum CreateOutcome {
    Created,
    DirectoriesFailed,
    InitFailed,
}

/// How starting the `git` of an upload or receive went.
#[derive(PartialEq, Eq, Structural, Clone, Copy)]
pub enum RpcOutcome {
    Running,
    SpawnFailed,
    WriteFailed,
    NoOutput,
}

/// The outcome of a step, reported by the server.
pub enum GitEvent {
    Exists(bool),
    Created(CreateOutcome),
    /// The standard output of a successful `git`, or `None` when it failed.
    Advertised(Option<Vec<u8>>),
    /// The request body, or `None` when it could not be read.
    BodyRead(Option<Vec<u8>>),
    RpcStarted(RpcOutcome),
}

/// Where an exchange stands.
#[derive(PartialEq, Eq, Structural, Clone, Copy)]
pub enum Phase {
    AwaitExists,
    AwaitCreate,
    AwaitAdvertise,
    AwaitBody,
    AwaitRpc,
    Finished,
}

/// One Git smart-HTTP exchange in progress.
pub struct GitExchange {
    pub op: GitOp,
    pub service: String,
    pub full_path: String,
    pub phase: Phase,
}

/// The bytes of a string.
pub open spec fn bytes_of(s: Seq<char>) -> Seq<u8> {
    encode_utf8(s)
}

/// The two services a client may ask `info/refs` for.
pub open spec fn valid_service(service: Seq<char>) -> bool {
    service == "git-upload-pack"@ || service == "git-receive-pack"@
}

/// The `git` subcommand of a service: the service without its `git-` prefix.
pub open spec fn service_command(service: Seq<char>) -> Seq<char> {
    if service == "git-upload-pack"@ {
        "upload-pack"@
    } else {
        "receive-pack"@
    }
}

/// The RPC service name of an upload or receive exchange.
pub open spec fn rpc_service(op: GitOp) -> Seq<char> {
    if op == GitOp::UploadPack {
        "upload-pack"@
    } else {
        "receive-pack"@
    }
}

/// A missing repository is created by a push, and only by a push.
pub open spec fn creates_missing(op: GitOp, service: Seq<char>) -> bool {
    (op == GitOp::InfoRefs && service == "git-receive-pack"@) || op == GitOp::ReceivePack
}

/// The `info/refs` answer: the pkt-line `# service=<service>\n` (its length
/// plus four, as four or more hex digits, then the line), a flush packet
/// `0000`, then what `git` printed.
pub open spec fn advertisement(service: Seq<char>, out: Seq<u8>) -> Seq<u8> {
    let line = "# service="@ + service + "\n"@;
    bytes_of(hex4(bytes_of(line).len() + 4) + line) + bytes_of("0000"@) + out
}

/// A request body starts with the gzip magic bytes.
pub open spec fn gzipped(body: Seq<u8>) -> bool {
    body.len() >= 2 && body[0] == 0x1f && body[1] == 0x8b
}

/// What decoding the first gzip member of `data` yields (`flate2::read::GzDecoder`
/// read to the end), or `None` when it fails.
pub uninterp spec fn gunzip_member(data: Seq<u8>) -> Option<Seq<u8>>;

/// The step after the repository is known to exist.
pub open spec fn after_exists(op: GitOp, service: Seq<char>, path: Seq<char>) -> GitStepView {
    if op == GitOp::InfoRefs {
        GitStepView::Advertise(service_command(service), path)
    } else {
        GitStepView::ReadBody
    }
}

/// The first step of an exchange for `repo_path` under the root `root`: an
/// `info/refs` request for another service is refused; otherwise the
/// server checks whether the repository exists.
pub open spec fn first_step(
    root: Seq<char>,
    repo_path: Seq<char>,
    op: GitOp,
    service: Seq<char>,
) -> GitStepView {
    if op == GitOp::InfoRefs && !valid_service(service) {
        GitStepView::Reply(400, "Invalid service"@)
    } else {
        GitStepView::CheckExists(join_path(root, without_leading_slashes(repo_path)))
    }
}

/// The step that follows an event.
pub open spec fn next_step(
    op: GitOp,
    service: Seq<char>,
    path: Seq<char>,
    phase: Phase,
    ev: GitEvent,
) -> GitStepView {
    match ev {
        GitEvent::Exists(true) => after_exists(op, service, path),
        GitEvent::Exists(false) => if creates_missing(op, service) {
            GitStepView::CreateRepository(path)
        } else {
            GitStepView::Reply(404, "Repository not found"@)
        },
        GitEvent::Created(CreateOutcome::Created) => after_exists(op, service, path),
        GitEvent::Created(CreateOutcome::DirectoriesFailed) => GitStepView::Reply(
            500,
            "Failed to create repository directories"@,
        ),
        GitEvent::Created(CreateOutcome::InitFailed) => GitStepView::Reply(
            500,
            "Failed to initialize repository"@,
        ),
        GitEvent::Advertised(Some(out)) => GitStepView::SendAdvertisement(
            "application/x-"@ + service + "-advertisement"@,
            advertisement(service, out@),
        ),
        GitEvent::Advertised(None) => GitStepView::Reply(500, "Git command failed"@),
        GitEvent::BodyRead(None) => GitStepView::Reply(400, "Failed to read request body"@),
        GitEvent::BodyRead(Some(body)) => if !gzipped(body@) {
            GitStepView::RunRpc(rpc_service(op), path, body@)
        } else {
            match gunzip_member(body@) {
                Some(plain) => GitStepView::RunRpc(rpc_service(op), path, plain),
                None => GitStepView::Reply(400, "Failed to decompress request body"@),
            }
        },
        GitEvent::RpcStarted(RpcOutcome::Running) => GitStepView::StreamRpc(
            "application/x-git-"@ + rpc_service(op) + "-result"@,
        ),
        GitEvent::RpcStarted(RpcOutcome::SpawnFailed) => GitStepView::Reply(
            500,
            "Failed to spawn git"@,
        ),
        GitEvent::RpcStarted(RpcOutcome::WriteFailed) => GitStepView::Reply(
            500,
            "Failed to write to git"@,
        ),
        GitEvent::RpcStarted(RpcOutcome::NoOutput) => GitStepView::Reply(
            500,
            "Failed to get git output"@,
        ),
    }
}

/// The phase a step leaves the exchange in.
pub open spec fn phase_after(step: GitStepView) -> Phase {
    match step {
        GitStepView::CheckExists(_) => Phase::AwaitExists,
        GitStepView::CreateRepository(_) => Phase::AwaitCreate,
        GitStepView::Advertise(_, _) => Phase::AwaitAdvertise,
        GitStepView::ReadBody => Phase::AwaitBody,
        GitStepView::RunRpc(_, _, _) => Phase::AwaitRpc,
        _ => Phase::Finished,
    }
}

/// The event answers the step the exchange waits on.
pub open spec fn answers(phase: Phase, ev: GitEvent) -> bool {
    match ev {
        GitEvent::Exists(_) => phase == Phase::AwaitExists,
        GitEvent::Created(_) => phase == Phase::AwaitCreate,
        GitEvent::Advertised(_) => phase == Phase::AwaitAdvertise,
        GitEvent::BodyRead(_) => phase == Phase::AwaitBody,
        GitEvent::RpcStarted(_) => phase == Phase::AwaitRpc,
    }
}

/// `flate2::read::GzDecoder` over `data`, read to the end.
#[verifier::external_body]
fn gzip_decode(data: &[u8]) -> (r: Option<Vec<u8>>)
    ensures
        r matches Some(v) ==> gunzip_member(data@) == Some(v@),
        r is None ==> gunzip_member(data@) is None,
{
    let mut decoder = flate2::read::GzDecoder::new(data);
    let mut out: Vec<u8> = Vec::new();
    match std::io::Read::read_to_end(&mut decoder, &mut out) {
        Ok(_) => Some(out),
        Err(_) => None,
    }
}

/// The bytes of a string, as `str::as_bytes` gives them.
pub fn bytes_vec(s: &str) -> (r: Vec<u8>)
    ensures
        r@ == bytes_of(s@),
{
    let b = s.as_bytes();
    let mut r: Vec<u8> = Vec::new();
    let mut i: usize = 0;
    while i < b.len()
        invariant
            i <= b.len(),
            b@ == bytes_of(s@),
            r@ == b@.take(i as int),
        decreases b.len() - i,
    {
        r.push(b[i]);
        assert(b@.take(i as int).push(b@[i as int]) =~= b@.take(i + 1));
        i += 1;
    }
    assert(b@.take(b.len() as int) =~= b@);
    r
}

fn reply(status: u16, message: &str) -> (r: GitStep)
    ensures
        r@ == GitStepView::Reply(status, message@),
{
    GitStep::Reply { status, message: String::from_str(message) }
}

fn str_eq(a: &String, b: &str) -> (r: bool)
    ensures
        r == (a@ == b@),
{
    let s = String::from_str(b);
    *a == s
}

/// The `info/refs` answer body.
pub fn advertisement_body(service: &str, out: &Vec<u8>) -> (r: Vec<u8>)
    ensures
        r@ == advertisement(service@, out@),
{
    let mut line: Vec<char> = Vec::new();
    append_str(&mut line, "# service=");
    append_str(&mut line, service);
    append_str(&mut line, "\n");
    let line_s = string_of(&line);
    let n = line_s.as_str().as_bytes().len();
    let mut pkt = hex4_chars(n as u128 + 4);
    append_chars(&mut pkt, &line);
    let pkt_s = string_of(&pkt);
    let mut body = bytes_vec(pkt_s.as_str());
    let flush = bytes_vec("0000");
    let ghost b0 = body@;
    let mut i: usize = 0;
    while i < flush.len()
        invariant
            i <= flush.len(),
            body@ == b0 + flush@.take(i as int),
        decreases flush.len() - i,
    {
        body.push(flush[i]);
        assert(b0 + flush@.take(i as int).push(flush@[i as int]) =~= b0 + flush@.take(i + 1));
        i += 1;
    }
    assert(flush@.take(flush.len() as int) =~= flush@);
    let ghost b1 = body@;
    let mut j: usize = 0;
    while j < out.len()
        invariant
            j <= out.len(),
            body@ == b1 + out@.take(j as int),
        decreases out.len() - j,
    {
        body.push(out[j]);
        assert(b1 + out@.take(j as int).push(out@[j as int]) =~= b1 + out@.take(j + 1));
        j += 1;
    }
    assert(out@.take(out.len() as int) =~= out@);
    body
}

/// What the Git smart-HTTP handlers share: the scanner of the repository root.
pub struct GitHttpState {
    pub scanner: Arc<RepoScanner>,
}

impl GitExchange {
    /// The plain step view of what follows `ev` in this exchange.
    pub open spec fn expected(&self, ev: GitEvent) -> GitStepView {
        next_step(self.op, self.service@, self.full_path@, self.phase, ev)
    }

    /// Starts an exchange for `repo_path` (as the request names it) under the
    /// repository root of `state`; `service` is the `service` query parameter
    /// of an `info/refs` request and is ignored otherwise.
    pub fn start(state: &GitHttpState, repo_path: &str, op: GitOp, service: &str) -> (r: (GitExchange, GitStep))
        ensures
            r.1@ == first_step(state.scanner.root(), repo_path@, op, service@),
            r.0.phase == phase_after(r.1@),
            r.0.op == op,
            r.0.service@ == service@,
            r.0.full_path@ == join_path(state.scanner.root(), without_leading_slashes(repo_path@)),
    {
        let root = state.scanner.repos_path();
        let rel = trim_leading_slashes(repo_path);
        let full = join_paths(root, rel.as_str());
        let svc = String::from_str(service);
        if op == GitOp::InfoRefs && !(str_eq(&svc, "git-upload-pack") || str_eq(
            &svc,
            "git-receive-pack",
        )) {
            (
                GitExchange { op, service: svc, full_path: full, phase: Phase::Finished },
                reply(400, "Invalid service"),
            )
        } else {
            let step = GitStep::CheckExists { path: full.clone() };
            (GitExchange { op, service: svc, full_path: full, phase: Phase::AwaitExists }, step)
        }
    }

    fn after_exists_exec(&self) -> (r: GitStep)
        ensures
            r@ == after_exists(self.op, self.service@, self.full_path@),
    {
        if self.op == GitOp::InfoRefs {
            let command = if str_eq(&self.service, "git-upload-pack") {
                String::from_str("upload-pack")
            } else {
                String::from_str("receive-pack")
            };
            GitStep::Advertise { command, path: self.full_path.clone() }
        } else {
            GitStep::ReadBody
        }
    }

    fn rpc_service_exec(&self) -> (r: String)
        ensures
            r@ == rpc_service(self.op),
    {
        if self.op == GitOp::UploadPack {
            String::from_str("upload-pack")
        } else {
            String::from_str("receive-pack")
        }
    }

    /// Takes the outcome of the step the exchange waits on and gives the next step.
    pub fn step(&mut self, ev: GitEvent) -> (r: GitStep)
        requires
            answers(old(self).phase, ev),
        ensures
            r@ == old(self).expected(ev),
            final(self).phase == phase_after(r@),
            final(self).op == old(self).op,
            final(self).service == old(self).service,
            final(self).full_path == old(self).full_path,
    {
        let r = match ev {
            GitEvent::Exists(true) => self.after_exists_exec(),
            GitEvent::Exists(false) => {
                if (self.op == GitOp::InfoRefs && str_eq(&self.service, "git-receive-pack"))
                    || self.op == GitOp::ReceivePack {
                    GitStep::CreateRepository { path: self.full_path.clone() }
                } else {
                    reply(404, "Repository not found")
                }
            },
            GitEvent::Created(CreateOutcome::Created) => self.after_exists_exec(),
            GitEvent::Created(CreateOutcome::DirectoriesFailed) => reply(
                500,
                "Failed to create repository directories",
            ),
            GitEvent::Created(CreateOutcome::InitFailed) => reply(
                500,
                "Failed to initialize repository",
            ),
            GitEvent::Advertised(Some(out)) => {
                let mut ct: Vec<char> = Vec::new();
                append_str(&mut ct, "application/x-");
                append_str(&mut ct, self.service.as_str());
                append_str(&mut ct, "-advertisement");
                let body = advertisement_body(self.service.as_str(), &out);
                GitStep::SendAdvertisement { content_type: string_of(&ct), body }
            },
            GitEvent::Advertised(None) => reply(500, "Git command failed"),
            GitEvent::BodyRead(None) => reply(400, "Failed to read request body"),
            GitEvent::BodyRead(Some(body)) => {
                if body.len() >= 2 && body[0] == 0x1f && body[1] == 0x8b {
                    match gzip_decode(body.as_slice()) {
                        Some(plain) => GitStep::RunRpc {
                            service: self.rpc_service_exec(),
                            path: self.full_path.clone(),
                            input: plain,
                        },
                        None => reply(400, "Failed to decompress request body"),
                    }
                } else {
                    GitStep::RunRpc {
                        service: self.rpc_service_exec(),
                        path: self.full_path.clone(),
                        input: body,
                    }
                }
            },
            GitEvent::RpcStarted(RpcOutcome::Running) => {
                let mut ct: Vec<char> = Vec::new();
                append_str(&mut ct, "application/x-git-");
                let svc = self.rpc_service_exec();
                append_str(&mut ct, svc.as_str());
                append_str(&mut ct, "-result");
                GitStep::StreamRpc { content_type: string_of(&ct) }
            },
            GitEvent::RpcStarted(RpcOutcome::SpawnFailed) => reply(500, "Failed to spawn git"),
            GitEvent::RpcStarted(RpcOutcome::WriteFailed) => reply(500, "Failed to write to git"),
            GitEvent::RpcStarted(RpcOutcome::NoOutput) => reply(500, "Failed to get git output"),
        };
        self.phase = match &r {
            GitStep::CheckExists { .. } => Phase::AwaitExists,
            GitStep::CreateRepository { .. } => Phase::AwaitCreate,
            GitStep::Advertise { .. } => Phase::AwaitAdvertise,
            GitStep::ReadBody => Phase::AwaitBody,
            GitStep::RunRpc { .. } => Phase::AwaitRpc,
            _ => Phase::Finished,
        };
        r
    }
}

/// A request that asks `info/refs` for a service other than the two Git
/// services is refused with 400 before the file system is consulted.
pub proof fn law_invalid_service_refused(root: Seq<char>, repo_path: Seq<char>, service: Seq<char>)
    requires
        !valid_service(service),
    ensures
        first_step(root, repo_path, GitOp::InfoRefs, service) == GitStepView::Reply(
            400,
            "Invalid service"@,
        ),
{
}

/// A missing repository is created only by a push: in every exchange that
/// is not one, a missing repository is answered 404.
pub proof fn law_only_push_creates(
    op: GitOp,
    service: Seq<char>,
    path: Seq<char>,
    phase: Phase,
)
    requires
        !creates_missing(op, service),
    ensures
        next_step(op, service, path, phase, GitEvent::Exists(false)) == GitStepView::Reply(
            404,
            "Repository not found"@,
        ),
{
}

/// How many more steps an exchange in this phase may wait on.
pub open spec fn steps_left(phase: Phase) -> nat {
    match phase {
        Phase::AwaitExists => 5,
        Phase::AwaitCreate => 4,
        Phase::AwaitBody => 3,
        Phase::AwaitAdvertise => 2,
        Phase::AwaitRpc => 1,
        Phase::Finished => 0,
    }
}

/// Every exchange ends: each outcome the server reports moves the exchange
/// to a phase with fewer steps left, so an exchange waits on at most five
/// steps before it answers.
pub proof fn law_exchange_ends(op: GitOp, service: Seq<char>, path: Seq<char>, phase: Phase, ev: GitEvent)
    requires
        answers(phase, ev),
    ensures
        steps_left(phase_after(next_step(op, service, path, phase, ev))) < steps_left(phase),
{
}

/// A fetch runs `git upload-pack` and a push `git receive-pack` on the body
/// as sent, and the result streamed back is labelled with that same
/// service: `application/x-git-upload-pack-result` for a fetch and
/// `application/x-git-receive-pack-result` for a push.
pub proof fn law_rpc_result_names_its_service(
    op: GitOp,
    service: Seq<char>,
    path: Seq<char>,
    phase: Phase,
    body: Vec<u8>,
)
    requires
        op != GitOp::InfoRefs,
        !gzipped(body@),
    ensures
        ({
            let svc = if op == GitOp::UploadPack {
                "upload-pack"@
            } else {
                "receive-pack"@
            };
            &&& next_step(op, service, path, phase, GitEvent::BodyRead(Some(body)))
                == GitStepView::RunRpc(svc, path, body@)
            &&& next_step(op, service, path, phase, GitEvent::RpcStarted(RpcOutcome::Running))
                == GitStepView::StreamRpc("application/x-git-"@ + svc + "-result"@)
        }),
        op == GitOp::UploadPack ==> next_step(op, service, path, phase, GitEvent::RpcStarted(RpcOutcome::Running))
            == GitStepView::StreamRpc("application/x-git-upload-pack-result"@),
        op == GitOp::ReceivePack ==> next_step(op, service, path, phase, GitEvent::RpcStarted(RpcOutcome::Running))
            == GitStepView::StreamRpc("application/x-git-receive-pack-result"@),
{
    reveal_strlit("application/x-git-");
    reveal_strlit("upload-pack");
    reveal_strlit("receive-pack");
    reveal_strlit("-result");
    reveal_strlit("application/x-git-upload-pack-result");
    reveal_strlit("application/x-git-receive-pack-result");
    assert("application/x-git-"@ + "upload-pack"@ + "-result"@ =~= "application/x-git-upload-pack-result"@);
    assert("application/x-git-"@ + "receive-pack"@ + "-result"@ =~= "application/x-git-receive-pack-result"@);
}

/// `info/refs` for a service runs the service's `git` command (the service
/// without its `git-` prefix) and answers with the content type
/// `application/x-<service>-advertisement`.
pub proof fn law_advertisement_names_its_service(
    service: Seq<char>,
    path: Seq<char>,
    phase: Phase,
    out: Vec<u8>,
)
    requires
        valid_service(service),
    ensures
        next_step(GitOp::InfoRefs, service, path, phase, GitEvent::Exists(true)) matches GitStepView::Advertise(cmd, p)
            && "git-"@ + cmd == service && p == path,
        next_step(GitOp::InfoRefs, service, path, phase, GitEvent::Advertised(Some(out)))
            matches GitStepView::SendAdvertisement(ct, _) && ct == "application/x-"@ + service + "-advertisement"@,
{
    reveal_strlit("git-");
    reveal_strlit("upload-pack");
    reveal_strlit("receive-pack");
    reveal_strlit("git-upload-pack");
    reveal_strlit("git-receive-pack");
    assert("git-"@ + "upload-pack"@ =~= "git-upload-pack"@);
    assert("git-"@ + "receive-pack"@ =~= "git-receive-pack"@);
}

/// A push to a missing repository creates it first (for `git push` itself
/// and for its `info/refs?service=git-receive-pack`), and once it is
/// created the exchange goes on exactly as for a repository that existed:
/// `info/refs` advertises, an upload or receive reads the request body.
/// A gzipped body is run as what it decompresses to, and refused with 400
/// when it does not decompress.
pub proof fn law_push_creates_then_continues(
    op: GitOp,
    service: Seq<char>,
    path: Seq<char>,
    phase: Phase,
    body: Vec<u8>,
)
    ensures
        (op == GitOp::ReceivePack || (op == GitOp::InfoRefs && service == "git-receive-pack"@))
            ==> next_step(op, service, path, phase, GitEvent::Exists(false)) == GitStepView::CreateRepository(path),
        next_step(op, service, path, phase, GitEvent::Created(CreateOutcome::Created)) == next_step(
            op,
            service,
            path,
            phase,
            GitEvent::Exists(true),
        ),
        op != GitOp::InfoRefs ==> next_step(op, service, path, phase, GitEvent::Exists(true)) == GitStepView::ReadBody,
        op != GitOp::InfoRefs && gzipped(body@) ==> match gunzip_member(body@) {
            Some(plain) => next_step(op, service, path, phase, GitEvent::BodyRead(Some(body))) matches GitStepView::RunRpc(_, p, input) && p == path && input == plain,
            None => next_step(op, service, path, phase, GitEvent::BodyRead(Some(body))) == GitStepView::Reply(400, "Failed to decompress request body"@),
        },
{
}

} // verus!
