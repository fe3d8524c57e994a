use seed::fetch::{
    fold_exchange, DataError, FailReason, FetchObject, Method, Request, RequestController,
    RequestError, RequestMode, Response, ResponseWithDataResult, Status,
};

#[test]
fn status_classifies_by_hundred() {
    assert!(matches!(Status::new(101, "Switching".to_string()), Status::Informational(101, _)));
    assert!(matches!(Status::new(200, "OK".to_string()), Status::Success(200, _)));
    assert!(matches!(Status::new(301, "Moved".to_string()), Status::Redirection(301, _)));
    assert!(matches!(Status::new(404, "Not Found".to_string()), Status::ClientError(404, _)));
    assert!(matches!(Status::new(500, "Oops".to_string()), Status::ServerError(500, _)));
}

#[test]
fn status_code_and_text_read_back() {
    let s = Status::new(404, "Not Found".to_string());
    assert_eq!(s.code(), 404);
    assert_eq!(s.text(), "Not Found");
}

#[test]
fn method_request_line_names() {
    assert_eq!(Method::Get.as_str(), "GET");
    assert_eq!(Method::Head.as_str(), "HEAD");
    assert_eq!(Method::Post.as_str(), "POST");
    assert_eq!(Method::Put.as_str(), "PUT");
    assert_eq!(Method::Delete.as_str(), "DELETE");
    assert_eq!(Method::Connect.as_str(), "CONNECT");
    assert_eq!(Method::Options.as_str(), "OPTIONS");
    assert_eq!(Method::Trace.as_str(), "TRACE");
    assert_eq!(Method::Patch.as_str(), "PATCH");
}

fn ok_exchange(code: u16, data: Result<&str, DataError>) -> FetchObject<String> {
    FetchObject {
        request: Request::new("https://example.test/data".to_string()),
        result: Ok(ResponseWithDataResult {
            status: Status::new(code, "status".to_string()),
            data: data.map(|s| s.to_string()),
        }),
    }
}

#[test]
fn response_success_yields_typed_payload() {
    let r: Result<Response<String>, FailReason> = ok_exchange(200, Ok("payload")).response();
    match r {
        Ok(resp) => {
            assert_eq!(resp.status.code(), 200);
            assert_eq!(resp.data, "payload");
        }
        Err(_) => panic!("a parsed 200 exchange yields a response"),
    }
}

#[test]
fn response_error_status_wins_over_payload() {
    let r = ok_exchange(404, Ok("ignored")).response();
    match r {
        Err(FailReason::Status(s)) => assert_eq!(s.code(), 404),
        _ => panic!("a 4xx status is reported as the failure"),
    }
}

#[test]
fn response_data_error_is_reported() {
    let r = ok_exchange(200, Err(DataError::SerdeError("bad json".to_string()))).response();
    match r {
        Err(FailReason::DataError(DataError::SerdeError(msg))) => assert_eq!(msg, "bad json"),
        _ => panic!("a payload failure is reported as a data error"),
    }
}

#[test]
fn response_transport_failure_wins() {
    let fo: FetchObject<String> = FetchObject {
        request: Request::new("https://example.test/x".to_string()),
        result: Err(RequestError::DomException("aborted".to_string())),
    };
    match fo.response() {
        Err(FailReason::RequestError(RequestError::DomException(msg))) => {
            assert_eq!(msg, "aborted")
        }
        _ => panic!("a transport failure is reported first"),
    }
}

#[test]
fn map_data_keeps_the_status() {
    let raw = ResponseWithDataResult {
        status: Status::new(200, "OK".to_string()),
        data: Ok("12".to_string()),
    };
    let typed = raw.map_data(|d| {
        d.and_then(|s| {
            s.parse::<u32>()
                .map_err(|_| DataError::SerdeError("not a number".to_string()))
        })
    });
    assert_eq!(typed.status.code(), 200);
    assert_eq!(typed.data.unwrap(), 12);
}

#[test]
fn request_builder_chains() {
    let req = Request::new("https://example.test/api".to_string())
        .method(Method::Post)
        .header("Accept", "application/json")
        .mode(RequestMode::Cors)
        .timeout(1500);
    assert!(matches!(req.method, Method::Post));
    assert_eq!(req.headers.len(), 1);
    assert_eq!(req.headers[0].0, "Accept");
    assert_eq!(req.headers[0].1, "application/json");
    assert_eq!(req.mode, Some(RequestMode::Cors));
    assert_eq!(req.timeout, Some(1500));
    // a timeout needs an abort controller on the transport side
    assert!(req.controller_requested);
}

#[test]
fn setting_a_header_again_replaces_its_value() {
    let req = Request::new("https://example.test".to_string())
        .header("Accept", "text/plain")
        .header("Accept", "application/json");
    assert_eq!(req.headers.len(), 1);
    assert_eq!(req.headers[0].1, "application/json");
}

#[test]
fn send_json_sets_content_type_and_body() {
    let req = Request::new("https://example.test".to_string())
        .send_json("{\"count\":3}".to_string());
    assert_eq!(req.headers.len(), 1);
    assert_eq!(req.headers[0].0, "Content-Type");
    assert_eq!(req.headers[0].1, "application/json; charset=utf-8");
    assert_eq!(req.body.as_deref(), Some("{\"count\":3}"));
}

#[test]
fn abort_cancels_and_disarms() {
    let mut controller = RequestController { aborted: false, timeout_armed: true };
    controller.abort();
    assert!(controller.aborted);
    assert!(!controller.timeout_armed);
}

#[test]
fn disable_timeout_works_exactly_once() {
    let mut controller = RequestController { aborted: false, timeout_armed: true };
    assert!(controller.disable_timeout().is_ok());
    assert_eq!(controller.disable_timeout(), Err("disable_timeout: already disabled"));
    assert!(!controller.aborted);
}

#[test]
fn controller_handoff_mirrors_the_timeout() {
    let mut seen: Option<RequestController> = None;
    let req = Request::new("https://example.test".to_string())
        .timeout(900)
        .controller(|c| seen = Some(c));
    assert!(req.controller_requested);
    let handed = seen.expect("the transferrer receives the controller");
    assert!(handed.timeout_armed);
    assert!(!handed.aborted);
}

#[test]
fn body_json_stores_the_serialized_text() {
    let req = Request::new("https://example.test".to_string())
        .body_json("[1,2,3]".to_string());
    assert_eq!(req.body.as_deref(), Some("[1,2,3]"));
}

#[test]
fn fold_exchange_classifies_and_carries_the_body() {
    let req = Request::new("https://example.test".to_string());
    let folded = fold_exchange(req, Ok((200, "OK".to_string(), "body".to_string())))
        .expect("a status in range folds");
    match folded.result {
        Ok(resp) => {
            assert_eq!(resp.status.code(), 200);
            assert_eq!(resp.data.unwrap(), "body");
        }
        Err(_) => panic!("a successful exchange folds into a response"),
    }
}

#[test]
fn fold_exchange_refuses_an_out_of_range_status() {
    let req = Request::new("https://example.test".to_string());
    assert!(fold_exchange(req, Ok((600, "?".to_string(), String::new()))).is_none());
}

#[test]
fn fold_exchange_reports_a_transport_failure() {
    let req = Request::new("https://example.test".to_string());
    let folded = fold_exchange(req, Err("aborted".to_string())).expect("a failure folds");
    match folded.result {
        Err(RequestError::DomException(msg)) => assert_eq!(msg, "aborted"),
        _ => panic!("a transport failure folds into the request error"),
    }
}
