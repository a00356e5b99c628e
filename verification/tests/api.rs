use deeper::api::{
    api_url, download_url_request, reply_by_status, fetch_download_url, fetch_live2d_list, model_ids, model_list_from, models_url, parse_model_list,
    ApiError, ApiResponse, DownloadUrlBody, Live2dListBody, Live2dSummary, LIVE2D_LIST, RESOURCE_DOWNLOAD_URL,
};

fn reply<T>(body: Option<T>, error: bool, message: &str) -> ApiResponse<T> {
    ApiResponse { body, error, message: message.to_string(), timestamp: 0 }
}

#[test]
fn gateway_addresses() {
    assert_eq!(api_url(RESOURCE_DOWNLOAD_URL), "https://api.elake.top/deeper/resource/download_url");
    assert_eq!(api_url(LIVE2D_LIST), "https://api.elake.top/deeper/live2d/list");
}

#[test]
fn error_texts() {
    assert_eq!(ApiError::Request("timeout".to_string()).message(), "网络错误: timeout");
    assert_eq!(ApiError::Http(502).message(), "接口返回错误: HTTP 502");
    assert_eq!(ApiError::InvalidResponse("x".to_string()).message(), "解析接口响应失败: x");
    assert_eq!(ApiError::Business("denied".to_string()).message(), "接口返回错误: denied");
}

#[test]
fn download_url_from_reply() {
    let ok = reply(Some(DownloadUrlBody { url: "https://cdn/x.zip".to_string() }), false, "");
    assert_eq!(fetch_download_url(Ok(ok)).ok().as_deref(), Some("https://cdn/x.zip"));
    let business = reply::<DownloadUrlBody>(None, true, "");
    match fetch_download_url(Ok(business)) {
        Err(ApiError::Business(m)) => assert_eq!(m, "接口返回错误"),
        _ => panic!("expected business error"),
    }
    let missing = reply::<DownloadUrlBody>(None, false, "ok");
    match fetch_download_url(Ok(missing)) {
        Err(ApiError::InvalidResponse(m)) => assert_eq!(m, "接口响应中缺少 body"),
        _ => panic!("expected invalid response"),
    }
    match fetch_download_url(Err(ApiError::Http(404))) {
        Err(ApiError::Http(s)) => assert_eq!(s, 404),
        _ => panic!("expected the request error"),
    }
}

#[test]
fn live2d_list_from_reply() {
    let list = vec![Live2dSummary { id: "hiyori".to_string(), name: "Hiyori".to_string() }];
    let ok = reply(Some(Live2dListBody { list }), false, "");
    let got = fetch_live2d_list(Ok(ok)).ok().unwrap();
    assert_eq!(got.len(), 1);
    assert_eq!(got[0].id, "hiyori");
    let business = reply::<Live2dListBody>(None, true, "quota");
    match fetch_live2d_list(Ok(business)) {
        Err(ApiError::Business(m)) => assert_eq!(m, "quota"),
        _ => panic!("expected business error"),
    }
}

#[test]
fn model_ids_are_sorted_and_unique() {
    let body = r#"{"data":[{"id":"b"},"a",{"id":"b"},{"name":"no id"},{"id":"c"}]}"#;
    assert_eq!(model_ids(body), Some(vec!["a".to_string(), "b".to_string(), "c".to_string()]));
    assert_eq!(model_ids(r#"{"data":{}}"#), None);
    assert_eq!(model_ids("not json"), None);
}

#[test]
fn model_list_errors() {
    match parse_model_list(r#"{"object":"list"}"#) {
        Err(ApiError::InvalidResponse(m)) => assert_eq!(m, "接口返回成功, 但缺少 data 字段"),
        _ => panic!("expected missing data"),
    }
    assert_eq!(model_list_from(r#"{"data":[]}"#).err().as_deref(), Some("接口返回成功, 但没有解析到任何模型"));
    assert_eq!(model_list_from(r#"{"data":["m2","m1"]}"#).unwrap(), vec!["m1".to_string(), "m2".to_string()]);
}

#[test]
fn models_address() {
    assert_eq!(models_url("https://api.x.com/v1//").unwrap(), "https://api.x.com/v1/models");
    assert_eq!(models_url("///").err().as_deref(), Some("Base URL 不能为空"));
}

#[test]
fn download_url_request_and_status() {
    let (url, query) = download_url_request("live2d", "hiyori");
    assert_eq!(url, "https://api.elake.top/deeper/resource/download_url");
    assert_eq!(query, vec![("type".to_string(), "live2d".to_string()), ("name".to_string(), "hiyori".to_string())]);
    assert!(matches!(reply_by_status(200, "{}".to_string()), Ok(ref b) if b == "{}"));
    assert!(matches!(reply_by_status(404, "nope".to_string()), Err(ApiError::Http(404))));
    assert!(matches!(reply_by_status(302, String::new()), Err(ApiError::Http(302))));
}
