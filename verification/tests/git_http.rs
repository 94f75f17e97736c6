use std::io::Write;
use std::sync::Arc;

use gitclub::git_http::{
    advertisement_body, CreateOutcome, GitEvent, GitExchange, GitHttpState, GitOp, GitStep, Phase,
    RpcOutcome,
};
use gitclub::scanner::RepoScanner;

fn state() -> GitHttpState {
    GitHttpState { scanner: Arc::new(RepoScanner::new("/srv/repos".to_string())) }
}

fn reply_of(step: &GitStep) -> (u16, String) {
    match step {
        GitStep::Reply { status, message } => (*status, message.clone()),
        _ => panic!("expected a reply"),
    }
}

#[test]
fn advertisement_has_pkt_line_header() {
    let body = advertisement_body("git-upload-pack", &b"refs".to_vec());
    assert_eq!(body, b"001e# service=git-upload-pack\n0000refs".to_vec());
    let body = advertisement_body("git-receive-pack", &Vec::new());
    assert_eq!(body, b"001f# service=git-receive-pack\n0000".to_vec());
}

#[test]
fn invalid_service_refused() {
    let (ex, step) = GitExchange::start(&state(), "/a/r.git", GitOp::InfoRefs, "git-foo");
    assert_eq!(reply_of(&step), (400, "Invalid service".to_string()));
    assert!(ex.phase == Phase::Finished);
}

#[test]
fn fetch_advertisement_flow() {
    let (mut ex, step) = GitExchange::start(&state(), "//a/r.git", GitOp::InfoRefs, "git-upload-pack");
    match &step {
        GitStep::CheckExists { path } => assert_eq!(path, "/srv/repos/a/r.git"),
        _ => panic!("expected an existence check"),
    }
    let step = ex.step(GitEvent::Exists(true));
    match &step {
        GitStep::Advertise { command, path } => {
            assert_eq!(command, "upload-pack");
            assert_eq!(path, "/srv/repos/a/r.git");
        },
        _ => panic!("expected the advertisement"),
    }
    let step = ex.step(GitEvent::Advertised(Some(b"x".to_vec())));
    match &step {
        GitStep::SendAdvertisement { content_type, body } => {
            assert_eq!(content_type, "application/x-git-upload-pack-advertisement");
            assert_eq!(body, &b"001e# service=git-upload-pack\n0000x".to_vec());
        },
        _ => panic!("expected the answer"),
    }
    assert!(ex.phase == Phase::Finished);
}

#[test]
fn missing_repository_created_only_for_push() {
    let (mut ex, _) = GitExchange::start(&state(), "a/new.git", GitOp::InfoRefs, "git-receive-pack");
    match ex.step(GitEvent::Exists(false)) {
        GitStep::CreateRepository { path } => assert_eq!(path, "/srv/repos/a/new.git"),
        _ => panic!("a push creates the repository"),
    }
    match ex.step(GitEvent::Created(CreateOutcome::Created)) {
        GitStep::Advertise { command, .. } => assert_eq!(command, "receive-pack"),
        _ => panic!(),
    }
    let (mut ex, _) = GitExchange::start(&state(), "a/new.git", GitOp::InfoRefs, "git-upload-pack");
    assert_eq!(reply_of(&ex.step(GitEvent::Exists(false))), (404, "Repository not found".to_string()));
    let (mut ex, _) = GitExchange::start(&state(), "a/new.git", GitOp::UploadPack, "");
    assert_eq!(reply_of(&ex.step(GitEvent::Exists(false))), (404, "Repository not found".to_string()));
}

#[test]
fn creation_failures() {
    let (mut ex, _) = GitExchange::start(&state(), "a/new.git", GitOp::ReceivePack, "");
    let _ = ex.step(GitEvent::Exists(false));
    assert_eq!(
        reply_of(&ex.step(GitEvent::Created(CreateOutcome::InitFailed))),
        (500, "Failed to initialize repository".to_string())
    );
    let (mut ex, _) = GitExchange::start(&state(), "a/new.git", GitOp::ReceivePack, "");
    let _ = ex.step(GitEvent::Exists(false));
    assert_eq!(
        reply_of(&ex.step(GitEvent::Created(CreateOutcome::DirectoriesFailed))),
        (500, "Failed to create repository directories".to_string())
    );
}

#[test]
fn rpc_plain_and_gzip_bodies() {
    let (mut ex, _) = GitExchange::start(&state(), "a/r.git", GitOp::UploadPack, "");
    assert!(matches!(ex.step(GitEvent::Exists(true)), GitStep::ReadBody));
    match ex.step(GitEvent::BodyRead(Some(b"0032want".to_vec()))) {
        GitStep::RunRpc { service, path, input } => {
            assert_eq!(service, "upload-pack");
            assert_eq!(path, "/srv/repos/a/r.git");
            assert_eq!(input, b"0032want".to_vec());
        },
        _ => panic!(),
    }
    match ex.step(GitEvent::RpcStarted(RpcOutcome::Running)) {
        GitStep::StreamRpc { content_type } => assert_eq!(content_type, "application/x-git-upload-pack-result"),
        _ => panic!(),
    }

    let mut enc = flate2::write::GzEncoder::new(Vec::new(), flate2::Compression::default());
    enc.write_all(b"0009done\n").unwrap();
    let gz = enc.finish().unwrap();
    let (mut ex, _) = GitExchange::start(&state(), "a/r.git", GitOp::ReceivePack, "");
    let _ = ex.step(GitEvent::Exists(true));
    match ex.step(GitEvent::BodyRead(Some(gz))) {
        GitStep::RunRpc { service, input, .. } => {
            assert_eq!(service, "receive-pack");
            assert_eq!(input, b"0009done\n".to_vec());
        },
        _ => panic!(),
    }
}

#[test]
fn rpc_failures() {
    let (mut ex, _) = GitExchange::start(&state(), "a/r.git", GitOp::UploadPack, "");
    let _ = ex.step(GitEvent::Exists(true));
    assert_eq!(
        reply_of(&ex.step(GitEvent::BodyRead(Some(vec![0x1f, 0x8b, 1, 2, 3])))),
        (400, "Failed to decompress request body".to_string())
    );
    let (mut ex, _) = GitExchange::start(&state(), "a/r.git", GitOp::UploadPack, "");
    let _ = ex.step(GitEvent::Exists(true));
    assert_eq!(reply_of(&ex.step(GitEvent::BodyRead(None))), (400, "Failed to read request body".to_string()));
    let (mut ex, _) = GitExchange::start(&state(), "a/r.git", GitOp::UploadPack, "");
    let _ = ex.step(GitEvent::Exists(true));
    let _ = ex.step(GitEvent::BodyRead(Some(vec![])));
    assert_eq!(reply_of(&ex.step(GitEvent::RpcStarted(RpcOutcome::SpawnFailed))), (500, "Failed to spawn git".to_string()));
    let (mut ex, _) = GitExchange::start(&state(), "a/r.git", GitOp::InfoRefs, "git-upload-pack");
    let _ = ex.step(GitEvent::Exists(true));
    assert_eq!(reply_of(&ex.step(GitEvent::Advertised(None))), (500, "Git command failed".to_string()));
}
