use unhosted::agent::{
    list_models_url, read_file_result, search_memory_placeholder, tool_definitions, tool_request,
    web_fetch_result, ToolRequest,
};
use unhosted::agent_fs::{ReadFileError, ReadFileOutcome};

#[test]
fn only_allowed_tools_are_advertised_in_registry_order() {
    let allowed = vec!["list_dir".to_string(), "web_fetch".to_string(), "bogus".to_string()];
    let defs = tool_definitions(&allowed);
    let names: Vec<&str> = defs.iter().map(|d| d.name).collect();
    assert_eq!(names, vec!["web_fetch", "list_dir"]);
    assert!(defs[0].parameters.contains("\"required\":[\"url\"]"));
    assert!(tool_definitions(&vec![]).is_empty());
}

#[test]
fn tool_requests_need_their_arguments() {
    assert_eq!(
        tool_request("web_fetch", Some("https://x".into()), None),
        Ok(ToolRequest::WebFetch("https://x".into()))
    );
    assert_eq!(
        tool_request("web_fetch", None, None),
        Err("web_fetch: missing `url` argument".to_string())
    );
    assert_eq!(
        tool_request("read_file", None, None),
        Err("read_file: missing `path` argument".to_string())
    );
    assert_eq!(
        tool_request("list_dir", None, Some("/tmp".into())),
        Ok(ToolRequest::ListDir("/tmp".into()))
    );
    assert_eq!(tool_request("list_models", None, None), Ok(ToolRequest::ListModels));
    assert_eq!(tool_request("search_memory", None, None), Ok(ToolRequest::SearchMemory));
    assert_eq!(
        tool_request("rm_rf", None, None),
        Err("unknown tool: rm_rf (registry guard should have caught this)".to_string())
    );
    assert!(search_memory_placeholder().starts_with("(search_memory not yet wired"));
}

#[test]
fn read_file_results_note_truncation() {
    let (out, err) = read_file_result(ReadFileOutcome::Success {
        content: "abc".into(),
        bytes_read: 3,
        truncated: true,
    });
    assert_eq!(out, "(truncated to 3 bytes; file is larger than the configured cap)\nabc");
    assert_eq!(err, None);
    let (out, err) = read_file_result(ReadFileOutcome::Success {
        content: "abc".into(),
        bytes_read: 3,
        truncated: false,
    });
    assert_eq!((out.as_str(), err), ("abc", None));
    let (out, err) = read_file_result(ReadFileOutcome::Failure(ReadFileError::NotFound));
    assert_eq!(out, "");
    assert_eq!(err.as_deref(), Some("read_file: file not found"));
}

#[test]
fn web_fetch_results_describe_binary_bodies() {
    assert_eq!(web_fetch_result("hello".into(), 5, "text/plain", 200), "hello");
    assert_eq!(
        web_fetch_result(String::new(), 2048, "image/png", 200),
        "(non-text content: 2048 bytes, content-type: image/png, status: 200)"
    );
}

#[test]
fn model_list_url_drops_trailing_slashes() {
    assert_eq!(list_models_url("http://127.0.0.1:8080//"), "http://127.0.0.1:8080/v1/models");
    assert_eq!(list_models_url("http://h:1"), "http://h:1/v1/models");
}
