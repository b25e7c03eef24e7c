use roder_k8s::error::K8sError;
use roder_k8s::files::{command_outcome, file_preview, RemoteStatus};

fn status(s: Option<&str>, message: Option<&str>, reason: Option<&str>) -> Option<RemoteStatus> {
    Some(RemoteStatus {
        status: s.map(str::to_string),
        message: message.map(str::to_string),
        reason: reason.map(str::to_string),
    })
}

fn container_message(r: Result<Vec<u8>, K8sError>) -> String {
    match r {
        Err(K8sError::Container(m)) => m,
        Err(e) => panic!("expected a container failure, got {}", e.message()),
        Ok(_) => panic!("expected a failure"),
    }
}

#[test]
fn successful_commands_return_their_output() {
    assert_eq!(command_outcome(status(Some("Success"), None, None), "", b"ok".to_vec(), 10).unwrap(), b"ok".to_vec());
}

#[test]
fn failures_prefer_stderr_then_the_status_message() {
    assert_eq!(
        container_message(command_outcome(status(Some("Failure"), Some("exit 44"), None), "  not a directory: /x\n", vec![], 10)),
        "not a directory: /x"
    );
    assert_eq!(container_message(command_outcome(status(Some("Failure"), Some("exit 44"), Some("r")), "", vec![], 10)), "exit 44");
    assert_eq!(container_message(command_outcome(status(Some("Failure"), None, Some("NonZeroExitCode")), "", vec![], 10)), "NonZeroExitCode");
    assert_eq!(container_message(command_outcome(status(None, None, None), "", vec![], 10)), "container command failed");
    assert_eq!(container_message(command_outcome(status(Some("Success"), None, None), "warning\n", vec![], 10)), "warning");
}

#[test]
fn missing_status_and_oversized_output_are_api_errors() {
    match command_outcome(None, "", vec![], 10) {
        Err(K8sError::Api(m)) => assert_eq!(m, "container command returned no status"),
        _ => panic!("expected an API error"),
    }
    match command_outcome(status(Some("Success"), None, None), "", vec![0; 11], 10) {
        Err(K8sError::Api(m)) => assert_eq!(m, "container command output limit exceeded"),
        _ => panic!("expected an API error"),
    }
}

#[test]
fn previews_flag_binary_and_truncated_files() {
    let text = file_preview("/etc/hosts".into(), b"127.0.0.1 localhost\n".to_vec());
    assert_eq!(text.content, "127.0.0.1 localhost\n");
    assert!(!text.binary && !text.truncated);
    let binary = file_preview("/bin/x".into(), vec![0x7f, 0, 1]);
    assert!(binary.binary);
    assert_eq!(binary.content, "");
    let big = file_preview("/big".into(), vec![b'a'; 1048576 + 5]);
    assert!(big.truncated);
    assert_eq!(big.content.len(), 1048576);
    let lossy = file_preview("/l".into(), vec![0xff, b'a']);
    assert_eq!(lossy.content, "\u{fffd}a");
}
