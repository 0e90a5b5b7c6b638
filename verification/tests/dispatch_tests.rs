use asset_describer::database::ImageAnalysisResult;
use asset_describer::dispatch::{
    describe, judge, judge_document, AttemptOutcome, AttemptRequest, DispatchStep, Exchange,
    ImageAnalysis, Replay,
};
use asset_describer::json::{JsonMember, JsonValue};
use asset_describer::error::ImageAnalysisError;
use asset_describer::hosts::LlamaCppHostManager;
use asset_describer::request::request_body;

const ASSET: u128 = 0x0123_4567_89ab_cdef_0123_4567_89ab_cdef;

fn manager_of(hosts: &[&str], key: Option<&str>) -> LlamaCppHostManager {
    LlamaCppHostManager::new(
        hosts.iter().map(|h| h.to_string()).collect(),
        key.map(|k| k.to_string()),
        300,
    )
}

fn start(manager: &LlamaCppHostManager) -> ImageAnalysis {
    ImageAnalysis::start(ASSET, b"image bytes", "llava", "Describe it", 30, manager).unwrap()
}

fn reply(text: &str) -> AttemptOutcome {
    let content = serde_json::to_string(text).unwrap();
    AttemptOutcome::Response {
        status: 200,
        body: format!("{{\"choices\":[{{\"message\":{{\"content\":{}}}}}]}}", content),
    }
}

fn server_error() -> AttemptOutcome {
    AttemptOutcome::Response { status: 500, body: "internal error".to_string() }
}

fn expect_attempt(step: DispatchStep) -> AttemptRequest {
    match step {
        DispatchStep::Attempt(request) => request,
        DispatchStep::Finished(e) => panic!("the analysis ended early: {:?}", e),
    }
}

#[test]
fn start_refuses_an_empty_image() {
    let manager = manager_of(&["http://a", "http://b"], None);
    let r = ImageAnalysis::start(ASSET, b"", "llava", "Describe it", 30, &manager);
    assert_eq!(r.err(), Some(ImageAnalysisError::EmptyInput));
}

#[test]
fn start_builds_the_body_once_and_takes_the_budget() {
    let manager = manager_of(&["http://a", "http://b", "http://c"], None);
    let analysis =
        ImageAnalysis::start(ASSET, b"image bytes", "llava", "Describe it", 30, &manager).unwrap();
    assert_eq!(analysis.remaining(), 3);
    assert_eq!(analysis.asset_id(), ASSET);
    assert_eq!(analysis.body(), &request_body("llava", "Describe it", b"image bytes"));
    assert_eq!(analysis.last_error(), &None);
}

#[test]
fn judge_takes_a_transport_failure_as_transport_error() {
    assert_eq!(
        judge(AttemptOutcome::TransportFailure { detail: "connection refused".to_string() }),
        Err(ImageAnalysisError::TransportError { detail: "connection refused".to_string() })
    );
}

#[test]
fn judge_takes_a_timeout_as_request_timeout() {
    assert_eq!(judge(AttemptOutcome::TimedOut), Err(ImageAnalysisError::RequestTimeout));
}

#[test]
fn judge_takes_a_bad_status_as_server_error() {
    for status in [100, 199, 300, 404, 500, 503] {
        assert_eq!(
            judge(AttemptOutcome::Response { status, body: "oops".to_string() }),
            Err(ImageAnalysisError::ServerError { status, body: "oops".to_string() })
        );
    }
}

#[test]
fn judge_accepts_every_status_from_200_to_299() {
    for status in [200, 201, 204, 299] {
        let outcome = match reply("fine") {
            AttemptOutcome::Response { body, .. } => AttemptOutcome::Response { status, body },
            other => other,
        };
        assert_eq!(judge(outcome), Ok("fine".to_string()));
    }
}

#[test]
fn judge_takes_an_undecodable_body_as_malformed() {
    assert_eq!(
        judge(AttemptOutcome::Response { status: 200, body: "<html>".to_string() }),
        Err(ImageAnalysisError::MalformedResponse)
    );
    assert_eq!(
        judge(AttemptOutcome::Response { status: 200, body: "{\"choices\":[]}".to_string() }),
        Err(ImageAnalysisError::MalformedResponse)
    );
}

#[test]
fn judge_takes_blank_text_as_empty_response() {
    for text in ["", " ", "\n\t  \r\n", "\u{3000}\u{00a0}"] {
        assert_eq!(judge(reply(text)), Err(ImageAnalysisError::EmptyResponse));
    }
}

#[test]
fn judge_trims_the_description() {
    assert_eq!(judge(reply("  a scenic mountain lake\n")), Ok("a scenic mountain lake".to_string()));
}

#[test]
fn request_carries_url_body_key_and_wait() {
    let mut manager = manager_of(&["http://a:8080/"], Some("s3cr3t"));
    let analysis = start(&manager);
    let request = expect_attempt(analysis.next_attempt(&mut manager, 0));
    assert_eq!(
        request,
        AttemptRequest {
            host: "http://a:8080/".to_string(),
            url: "http://a:8080/v1/chat/completions".to_string(),
            body: request_body("llava", "Describe it", b"image bytes"),
            authorization: Some("Bearer s3cr3t".to_string()),
            wait_secs: 31,
        }
    );
}

#[test]
fn request_without_key_has_no_authorization() {
    let mut manager = manager_of(&["http://a"], None);
    let analysis = start(&manager);
    let request = expect_attempt(analysis.next_attempt(&mut manager, 0));
    assert_eq!(request.authorization, None);
}

#[test]
fn failover_from_a_failing_host_to_a_good_one() {
    let mut manager = manager_of(&["http://a", "http://b"], None);
    let mut analysis = start(&manager);

    let first = expect_attempt(analysis.next_attempt(&mut manager, 10));
    assert_eq!(first.host, "http://a");
    assert_eq!(analysis.record_outcome(&mut manager, &first.host, server_error(), 11), None);
    assert_eq!(analysis.remaining(), 1);

    let second = expect_attempt(analysis.next_attempt(&mut manager, 12));
    assert_eq!(second.host, "http://b");
    assert_eq!(second.body, first.body);
    let found =
        analysis.record_outcome(&mut manager, &second.host, reply("a scenic mountain lake"), 13);
    assert_eq!(
        found,
        Some(ImageAnalysisResult {
            description: "a scenic mountain lake".to_string(),
            asset_id: ASSET,
        })
    );
    assert_eq!(manager.unavailable_since("http://a"), Some(11));
    assert_eq!(manager.unavailable_since("http://b"), None);
    assert_eq!(analysis.remaining(), 1);
}

#[test]
fn single_host_that_times_out_ends_the_analysis_after_one_attempt() {
    let mut manager = manager_of(&["http://a"], None);
    let mut analysis = start(&manager);

    let request = expect_attempt(analysis.next_attempt(&mut manager, 10));
    assert_eq!(request.host, "http://a");
    assert_eq!(
        analysis.record_outcome(&mut manager, &request.host, AttemptOutcome::TimedOut, 41),
        None
    );
    assert_eq!(
        analysis.next_attempt(&mut manager, 42),
        DispatchStep::Finished(ImageAnalysisError::RequestTimeout)
    );
    assert_eq!(manager.unavailable_since("http://a"), Some(41));
    assert_eq!(analysis.remaining(), 0);
}

#[test]
fn replay_of_the_failover_scenario() {
    let mut manager = manager_of(&["http://a", "http://b"], None);
    let analysis = start(&manager);
    let script = vec![
        Exchange { asked_at: 10, outcome: server_error(), answered_at: 11 },
        Exchange { asked_at: 12, outcome: reply("a scenic mountain lake"), answered_at: 13 },
    ];
    assert_eq!(
        analysis.replay(&mut manager, &script),
        Replay {
            sent: 2,
            ended: Some(Ok(ImageAnalysisResult {
                description: "a scenic mountain lake".to_string(),
                asset_id: ASSET,
            })),
        }
    );
    assert_eq!(manager.unavailable_since("http://a"), Some(11));
    assert_eq!(manager.unavailable_since("http://b"), None);
}

#[test]
fn replay_of_the_timeout_scenario() {
    let mut manager = manager_of(&["http://a"], None);
    let analysis = start(&manager);
    let script = vec![
        Exchange { asked_at: 10, outcome: AttemptOutcome::TimedOut, answered_at: 41 },
        Exchange { asked_at: 42, outcome: reply("never asked for"), answered_at: 43 },
    ];
    assert_eq!(
        analysis.replay(&mut manager, &script),
        Replay { sent: 1, ended: Some(Err(ImageAnalysisError::RequestTimeout)) }
    );
    assert_eq!(manager.unavailable_since("http://a"), Some(41));
}

#[test]
fn attempts_never_exceed_the_number_of_hosts() {
    let outcomes = [
        AttemptOutcome::TransportFailure { detail: "refused".to_string() },
        AttemptOutcome::TimedOut,
        server_error(),
        AttemptOutcome::Response { status: 200, body: "garbage".to_string() },
        reply("   "),
    ];
    for hosts in 1..4usize {
        let names: Vec<String> = (0..hosts).map(|i| format!("http://host-{}", i)).collect();
        for first in 0..outcomes.len() {
            let mut manager = LlamaCppHostManager::new(names.clone(), None, 300);
            let analysis = ImageAnalysis::start(ASSET, b"x", "m", "p", 5, &manager).unwrap();
            let script: Vec<Exchange> = (0..10)
                .map(|i| Exchange {
                    asked_at: 2 * i,
                    outcome: outcomes[(first + i as usize) % outcomes.len()].clone(),
                    answered_at: 2 * i + 1,
                })
                .collect();
            let replay = analysis.replay(&mut manager, &script);
            assert_eq!(replay.sent, hosts);
            let last = outcomes[(first + hosts - 1) % outcomes.len()].clone();
            assert_eq!(replay.ended, Some(Err(judge(last).unwrap_err())));
        }
    }
}

#[test]
fn all_hosts_failing_reports_the_last_failure_and_marks_each_host() {
    let mut manager = manager_of(&["http://a", "http://b", "http://c"], None);
    let analysis = start(&manager);
    let script = vec![
        Exchange {
            asked_at: 1,
            outcome: AttemptOutcome::TransportFailure { detail: "refused".to_string() },
            answered_at: 2,
        },
        Exchange { asked_at: 3, outcome: reply(" "), answered_at: 4 },
        Exchange { asked_at: 5, outcome: server_error(), answered_at: 6 },
    ];
    assert_eq!(
        analysis.replay(&mut manager, &script),
        Replay {
            sent: 3,
            ended: Some(Err(ImageAnalysisError::ServerError {
                status: 500,
                body: "internal error".to_string(),
            })),
        }
    );
    assert_eq!(manager.unavailable_since("http://a"), Some(2));
    assert_eq!(manager.unavailable_since("http://b"), Some(4));
    assert_eq!(manager.unavailable_since("http://c"), Some(6));
}

#[test]
fn replay_stops_short_when_the_script_runs_out() {
    let mut manager = manager_of(&["http://a", "http://b"], None);
    let analysis = start(&manager);
    let script = vec![Exchange { asked_at: 1, outcome: server_error(), answered_at: 2 }];
    assert_eq!(analysis.replay(&mut manager, &script), Replay { sent: 1, ended: None });
}

#[test]
fn no_hosts_means_no_attempt() {
    let mut manager = manager_of(&[], None);
    let analysis = start(&manager);
    assert_eq!(analysis.remaining(), 0);
    assert_eq!(
        analysis.next_attempt(&mut manager, 0),
        DispatchStep::Finished(ImageAnalysisError::NoHostsReachable)
    );
}

#[test]
fn success_penalizes_no_host() {
    let mut manager = manager_of(&["http://a"], None);
    let mut analysis = start(&manager);
    let request = expect_attempt(analysis.next_attempt(&mut manager, 1));
    let found = analysis.record_outcome(&mut manager, &request.host, reply("ok"), 2);
    assert_eq!(found.map(|r| r.description), Some("ok".to_string()));
    assert_eq!(manager.unavailable_since("http://a"), None);
    assert_eq!(analysis.last_error(), &None);
}

#[test]
fn a_host_known_to_be_down_is_retried_when_nothing_else_is_left() {
    let mut manager = manager_of(&["http://a", "http://b"], None);
    manager.mark_host_unavailable("http://a", 1);
    manager.mark_host_unavailable("http://b", 2);
    let mut analysis = start(&manager);
    let first = expect_attempt(analysis.next_attempt(&mut manager, 3));
    assert_eq!(first.host, "http://a");
    assert_eq!(analysis.record_outcome(&mut manager, &first.host, server_error(), 4), None);
    let second = expect_attempt(analysis.next_attempt(&mut manager, 5));
    assert_eq!(second.host, "http://b");
}

#[test]
fn outcome_copy_is_equal() {
    let outcome = server_error();
    assert_eq!(outcome.copied(), outcome);
    assert_eq!(AttemptOutcome::TimedOut.copied(), AttemptOutcome::TimedOut);
}

#[test]
fn final_error_is_the_latest_failure() {
    let mut manager = manager_of(&["http://a", "http://b"], None);
    let mut analysis = start(&manager);
    assert_eq!(analysis.final_error(), ImageAnalysisError::NoHostsReachable);
    analysis.record_outcome(&mut manager, "http://a", AttemptOutcome::TimedOut, 1);
    assert_eq!(analysis.final_error(), ImageAnalysisError::RequestTimeout);
    analysis.record_outcome(&mut manager, "http://b", reply(""), 2);
    assert_eq!(analysis.final_error(), ImageAnalysisError::EmptyResponse);
    assert_eq!(analysis.remaining(), 0);
    analysis.record_outcome(&mut manager, "http://b", server_error(), 3);
    assert_eq!(analysis.remaining(), 0);
}

#[test]
fn describe_trims_and_refuses_blank_text() {
    assert_eq!(describe("  a lake \n"), Ok("a lake".to_string()));
    assert_eq!(describe("a lake"), Ok("a lake".to_string()));
    assert_eq!(describe(""), Err(ImageAnalysisError::EmptyResponse));
    assert_eq!(describe(" \t\u{2009}\n"), Err(ImageAnalysisError::EmptyResponse));
}

#[test]
fn judge_document_reads_a_parsed_reply() {
    let member = |key: &str, value: JsonValue| JsonMember { key: key.to_string(), value };
    let reply_with = |content: JsonValue| {
        JsonValue::Object(vec![member(
            "choices",
            JsonValue::Array(vec![JsonValue::Object(vec![member(
                "message",
                JsonValue::Object(vec![member("content", content)]),
            )])]),
        )])
    };
    assert_eq!(
        judge_document(&Some(reply_with(JsonValue::Text(" a lake ".to_string())))),
        Ok("a lake".to_string())
    );
    assert_eq!(
        judge_document(&Some(reply_with(JsonValue::Text("  ".to_string())))),
        Err(ImageAnalysisError::EmptyResponse)
    );
    assert_eq!(
        judge_document(&Some(reply_with(JsonValue::Null))),
        Err(ImageAnalysisError::MalformedResponse)
    );
    assert_eq!(
        judge_document(&Some(JsonValue::Array(vec![]))),
        Err(ImageAnalysisError::MalformedResponse)
    );
    assert_eq!(judge_document(&None), Err(ImageAnalysisError::MalformedResponse));
}
