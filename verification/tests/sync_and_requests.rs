use onenote_linux::graph::{
    accepts_reply, update_step, UpdateAction, UpdateReply, UpdateState,
    bearer, create_page_url, device_poll_error, device_token_request, graph_error, list_notebooks,
    list_sections, multipart_commands, page_content_request, push_part, refresh_decision,
    refresh_request, request_device_code, token_secret, token_secret_at, update_commands,
    update_page_url, CreatedPage, DevicePoll, GraphNotebook, GraphPageExport, GraphResource,
    GraphSection, RefreshDecision, TokenResponse, TokenSecret, GRAPH_SYNC_VERSION,
};
use onenote_linux::html::{attribute_value, body_inner, content_block, replace_body_inner};
use onenote_linux::model::{GraphPageLink, Project};
use onenote_linux::sync::{
    configured_client_id, credential_for, link_is_current, GraphEvent, GraphState,
};

fn token(access: &str) -> TokenSecret {
    TokenSecret { access_token: access.to_owned(), refresh_token: "refresh".to_owned(), expires_at: 5000 }
}

fn notebook(id: &str, name: &str, is_default: bool) -> GraphNotebook {
    GraphNotebook { id: id.to_owned(), display_name: name.to_owned(), is_default }
}

fn section(id: &str, name: &str, is_default: bool) -> GraphSection {
    GraphSection { id: id.to_owned(), display_name: name.to_owned(), is_default }
}

fn created(id: &str, title: &str, modified: &str) -> CreatedPage {
    CreatedPage {
        id: id.to_owned(),
        title: title.to_owned(),
        last_modified_date_time: modified.to_owned(),
    }
}

#[test]
fn device_code_request_asks_for_notes_access() {
    let request = request_device_code("client");
    assert_eq!(request.url, "https://login.microsoftonline.com/common/oauth2/v2.0/devicecode");
    assert_eq!(
        request.fields,
        vec![
            ("client_id".to_owned(), "client".to_owned()),
            ("scope".to_owned(), "offline_access Notes.ReadWrite".to_owned()),
        ]
    );
    let poll = device_token_request("client", "code");
    assert_eq!(poll.url, "https://login.microsoftonline.com/common/oauth2/v2.0/token");
    assert_eq!(poll.fields[2], ("device_code".to_owned(), "code".to_owned()));
    let refresh = refresh_request("client", "r1");
    assert_eq!(refresh.fields[1], ("grant_type".to_owned(), "refresh_token".to_owned()));
    assert_eq!(refresh.fields[2], ("refresh_token".to_owned(), "r1".to_owned()));
}

#[test]
fn graph_requests_encode_ids_and_carry_the_bearer_token() {
    let session = token("abc");
    assert_eq!(bearer(&session), "Bearer abc");
    let notebooks = list_notebooks(&session);
    assert_eq!(
        notebooks.url,
        "https://graph.microsoft.com/v1.0/me/onenote/notebooks?$select=id,displayName,isDefault"
    );
    assert_eq!(notebooks.accept, "application/json");
    let sections = list_sections(&session, "0-1!2");
    assert_eq!(
        sections.url,
        "https://graph.microsoft.com/v1.0/me/onenote/notebooks/0%2D1%212/sections?$select=id,displayName,isDefault"
    );
    assert_eq!(sections.authorization, "Bearer abc");
    assert_eq!(
        create_page_url("s é"),
        "https://graph.microsoft.com/v1.0/me/onenote/sections/s%20%C3%A9/pages"
    );
    let content = page_content_request(&session, "p");
    assert_eq!(content.accept, "text/html");
    assert!(content.url.ends_with("/pages/p/content?includeIDs=true"));
    assert!(update_page_url("p").ends_with("/pages/p/content"));
}

#[test]
fn token_replies_expire_a_minute_early_and_keep_the_refresh_token() {
    let reply = TokenResponse { access_token: "a".to_owned(), refresh_token: None, expires_in: 3600 };
    let session = token_secret_at(reply, "old".to_owned(), 1000);
    assert_eq!(session.access_token, "a");
    assert_eq!(session.refresh_token, "old");
    assert_eq!(session.expires_at, 4540);
    let reply = TokenResponse {
        access_token: "b".to_owned(),
        refresh_token: Some("new".to_owned()),
        expires_in: 30,
    };
    let session = token_secret_at(reply, "old".to_owned(), u64::MAX - 1);
    assert_eq!(session.refresh_token, "new");
    assert_eq!(session.expires_at, u64::MAX - 1);
    let now = token_secret(
        TokenResponse { access_token: "c".to_owned(), refresh_token: None, expires_in: 120 },
        String::new(),
    );
    assert!(now.expires_at >= 60);
}

#[test]
fn sessions_are_renewed_two_minutes_before_they_expire() {
    assert!(matches!(refresh_decision(&token("a"), 4000), RefreshDecision::Keep));
    assert!(matches!(refresh_decision(&token("a"), 4880), RefreshDecision::Refresh));
    let expired = TokenSecret { access_token: "a".to_owned(), refresh_token: String::new(), expires_at: 10 };
    match refresh_decision(&expired, 10) {
        RefreshDecision::Expired(message) => {
            assert_eq!(message, "Microsoft session expired; sign in again")
        }
        _ => panic!("expected an expired session"),
    }
}

#[test]
fn graph_errors_prefer_the_json_message() {
    assert_eq!(
        graph_error(403, r#"{"error":{"message":"Access denied"}}"#),
        "Microsoft Graph HTTP 403: Access denied"
    );
    assert_eq!(
        graph_error(400, r#"{"error":"invalid_grant","error_description":"Bad grant"}"#),
        "Microsoft Graph HTTP 400: Bad grant"
    );
    assert_eq!(graph_error(502, "  upstream down \n"), "Microsoft Graph HTTP 502: upstream down");
    assert_eq!(graph_error(500, "   "), "Microsoft Graph request failed with HTTP 500");
    assert_eq!(graph_error(404, r#"{"error":{"code":7}}"#), "Microsoft Graph HTTP 404: {\"error\":{\"code\":7}}");
}

#[test]
fn device_sign_in_polling_waits_slows_down_or_fails() {
    assert!(matches!(device_poll_error("authorization_pending", None, 5), DevicePoll::Wait(5)));
    assert!(matches!(device_poll_error("slow_down", None, 5), DevicePoll::Wait(10)));
    match device_poll_error("expired_token", None, 5) {
        DevicePoll::Failed(message) => assert_eq!(message, "expired token"),
        _ => panic!("expected a failure"),
    }
    match device_poll_error("access_denied", Some("The user declined".to_owned()), 5) {
        DevicePoll::Failed(message) => assert_eq!(message, "The user declined"),
        _ => panic!("expected a failure"),
    }
}

#[test]
fn multipart_bodies_carry_commands_and_resources() {
    let mut body = Vec::new();
    push_part(&mut body, "B", "img", "image/png", &[1, 2]);
    assert_eq!(
        body,
        b"--B\r\nContent-Disposition: form-data; name=\"img\"\r\nContent-Type: image/png\r\n\r\n\x01\x02\r\n".to_vec()
    );
    let page = GraphPageExport {
        title: "T".to_owned(),
        html: "<p/>".to_owned(),
        resources: vec![GraphResource {
            part_name: "img".to_owned(),
            content_type: "image/png".to_owned(),
            data: vec![7],
        }],
        warnings: Vec::new(),
    };
    let body = String::from_utf8(multipart_commands("[]", &page, "B")).unwrap();
    assert!(body.starts_with("--B\r\nContent-Disposition: form-data; name=\"Commands\"\r\nContent-Type: application/json\r\n\r\n[]\r\n"));
    assert!(body.contains("name=\"img\"\r\nContent-Type: image/png\r\n\r\n\x07\r\n"));
    assert!(body.ends_with("--B--\r\n"));
}

#[test]
fn update_commands_replace_title_and_content_block() {
    assert_eq!(
        update_commands("My \"page\"", "div:{1}", "<div>x</div>"),
        r#"[{"action":"replace","content":"My \"page\"","target":"title"},{"action":"replace","content":"<div>x</div>","target":"div:{1}"}]"#
    );
}

#[test]
fn page_body_is_read_and_replaced() {
    let html = "<html><body class=\"a\"><p>x</p></body></html>";
    assert_eq!(body_inner(html).as_deref(), Some("<p>x</p>"));
    assert_eq!(
        replace_body_inner(html, "<i>y</i>"),
        "<html><body class=\"a\"><i>y</i></body></html>"
    );
    assert_eq!(body_inner("<html></html>"), None);
    assert_eq!(replace_body_inner("<p/>", "z"), "<p/>");
    assert_eq!(
        content_block(html),
        "<div data-id=\"onenote-linux-content\"><p>x</p></div>"
    );
    assert_eq!(attribute_value("<a href=\"x\" id=\"y\">", "id").as_deref(), Some("y"));
    assert_eq!(attribute_value("<a id='z'>", "id").as_deref(), Some("z"));
    assert_eq!(attribute_value("<a data-id='z'>", "id"), None);
}

#[test]
fn environment_client_id_overrides_the_saved_one() {
    assert_eq!(configured_client_id("saved".to_owned(), Some("env".to_owned())), "env");
    assert_eq!(configured_client_id("saved".to_owned(), Some("  ".to_owned())), "saved");
    assert_eq!(configured_client_id("saved".to_owned(), None), "saved");
}

#[test]
fn replies_update_the_connection_state() {
    let mut state = GraphState::new("client".to_owned());
    assert_eq!(state.status, "Not signed in");
    let mut project: Option<Project> = None;

    state.busy = true;
    let changed = state.poll(GraphEvent::SignedIn(token("a")), None, &mut project);
    assert!(!changed);
    assert!(!state.busy);
    assert_eq!(state.status, "Signed in to Microsoft");
    assert_eq!(state.token.as_ref().unwrap().access_token, "a");

    state.poll(
        GraphEvent::Notebooks(
            token("b"),
            vec![notebook("1", "One", false), notebook("2", "Two", true), notebook("3", "Three", true)],
        ),
        Some("Microsoft operation succeeded, but the keyring is locked".to_owned()),
        &mut project,
    );
    assert_eq!(state.selected_notebook, 1);
    assert_eq!(state.status, "Microsoft operation succeeded, but the keyring is locked");

    state.poll(GraphEvent::Sections(token("c"), vec![section("s", "S", false)]), None, &mut project);
    assert_eq!(state.selected_section, 0);
    assert_eq!(state.status, "Loaded 1 section(s)");

    state.poll(
        GraphEvent::PageConflict { token: token("d"), remote_modified_at: "2026-01-01".to_owned() },
        None,
        &mut project,
    );
    assert_eq!(state.status, "Update blocked: the OneNote page changed remotely at 2026-01-01");

    state.poll(GraphEvent::SignedOut, None, &mut project);
    assert!(state.token.is_none());
    assert!(state.notebooks.is_empty());
    assert_eq!(state.status, "Signed out");

    state.poll(GraphEvent::Error("boom".to_owned()), None, &mut project);
    assert_eq!(state.status, "boom");
}

#[test]
fn uploads_link_pages_and_updates_refresh_links() {
    let mut state = GraphState::new("client".to_owned());
    let mut project = Some(Project::empty());
    let changed = state.poll(
        GraphEvent::PageCreated {
            token: token("a"),
            local_page_id: 2,
            notebook: notebook("n", "Notes", true),
            section: section("s", "Work", true),
            page: created("g1", "Page", "t1"),
            warnings: vec!["ink".to_owned()],
        },
        None,
        &mut project,
    );
    assert!(changed);
    assert_eq!(state.status, "Uploaded page “Page”");
    assert_eq!(state.warnings, vec!["ink".to_owned()]);
    let sync = &project.as_ref().unwrap().graph_sync;
    assert_eq!(sync.section_name.as_deref(), Some("Work"));
    let link = sync.pages.get(&2).unwrap();
    assert_eq!(link.graph_page_id, "g1");
    assert_eq!(link.uploaded_at, "t1");
    assert!(link_is_current(link));

    let changed = state.poll(
        GraphEvent::PageUpdated {
            token: token("b"),
            local_page_id: 2,
            page: created("g1", "Page", "t2"),
            warnings: Vec::new(),
        },
        None,
        &mut project,
    );
    assert!(changed);
    assert_eq!(project.as_ref().unwrap().graph_sync.pages.get(&2).unwrap().uploaded_at, "t2");

    let changed = state.poll(
        GraphEvent::PageUpdated {
            token: token("c"),
            local_page_id: 99,
            page: created("g9", "Other", "t3"),
            warnings: Vec::new(),
        },
        None,
        &mut project,
    );
    assert!(!changed);
    assert!(project.as_ref().unwrap().graph_sync.pages.get(&99).is_none());
    assert_eq!(state.status, "Updated page “Other”");

    let old = GraphPageLink { graph_page_id: "x".to_owned(), uploaded_at: "y".to_owned(), sync_version: 0 };
    assert!(!link_is_current(&old));
    assert_eq!(GRAPH_SYNC_VERSION, 1);
}

#[test]
fn user_actions_ask_for_requests() {
    let mut state = GraphState::new("   ".to_owned());
    assert!(state.start_sign_in().is_none());
    assert_eq!(state.status, "Configure a Microsoft Entra client ID first");
    assert!(!state.busy);

    let mut state = GraphState::new(" client ".to_owned());
    assert_eq!(state.start_sign_in().as_deref(), Some("client"));
    assert!(state.busy);
    assert_eq!(state.status, "Requesting Microsoft sign-in code…");
    assert!(state.load_notebooks().is_none());

    state.token = Some(token("a"));
    state.notebooks = vec![notebook("n1", "One", false)];
    let (client, session, notebook_id) = state.load_sections().unwrap();
    assert_eq!(client, " client ");
    assert_eq!(session.access_token, "a");
    assert_eq!(notebook_id, "n1");
    assert!(state.upload_target().is_none());
    state.sections = vec![section("s1", "S", true)];
    let target = state.upload_target().unwrap();
    assert_eq!(target.section.id, "s1");
    state.begin_upload("Page");
    assert_eq!(state.status, "Uploading “Page”…");
    state.begin_update("Page");
    assert_eq!(state.status, "Checking and updating “Page”…");
    assert_eq!(state.sign_out(), " client ");
    assert_eq!(state.credential_name(), "microsoft-graph: client ");
    assert_eq!(
        GraphState::store_token(Err("no keyring".to_owned())).as_deref(),
        Some("Microsoft operation succeeded, but no keyring")
    );
    assert!(GraphState::store_token(Ok(())).is_none());
}

#[test]
fn replaced_body_reads_back() {
    let html = "<html><head></head><body id=\"b\">old</body></html>";
    let replaced = replace_body_inner(html, "</body><p>new</p>");
    assert_eq!(body_inner(&replaced).as_deref(), Some("</body><p>new</p>"));
}

#[test]
fn encoded_ids_only_hold_letters_digits_and_percent() {
    let encoded = onenote_linux::graph::encode("a/b?c#d e&f=ü");
    assert!(encoded.chars().all(|c| c.is_ascii_alphanumeric() || c == '%'));
    assert_eq!(encoded, "a%2Fb%3Fc%23d%20e%26f%3D%C3%BC");
}

#[test]
fn conflicts_and_errors_leave_the_project_alone() {
    let mut state = GraphState::new("client".to_owned());
    let mut project = Some(Project::empty());
    state.busy = true;
    let changed = state.poll(
        GraphEvent::PageConflict { token: token("a"), remote_modified_at: "t9".to_owned() },
        None,
        &mut project,
    );
    assert!(!changed);
    assert!(!state.busy);
    assert!(state.warnings.is_empty());
    assert!(project.as_ref().unwrap().graph_sync.pages.is_empty());
    let changed = state.poll(GraphEvent::Error("offline".to_owned()), None, &mut project);
    assert!(!changed);
    assert!(project.as_ref().unwrap().graph_sync.section_id.is_none());
    state.poll(GraphEvent::SessionLoaded(None), None, &mut project);
    assert_eq!(state.status, "No saved Microsoft session");
    state.busy = true;
    state.poll(
        GraphEvent::DeviceCode(onenote_linux::graph::DeviceCode {
            device_code: "d".to_owned(),
            user_code: "U".to_owned(),
            verification_uri: "https://example.invalid".to_owned(),
            expires_in: 900,
            interval: 0,
            message: "Go".to_owned(),
        }),
        None,
        &mut project,
    );
    assert!(state.busy);
    assert_eq!(state.status, "Waiting for Microsoft sign-in");
    let code = state.device_code.as_ref().unwrap();
    assert_eq!(onenote_linux::graph::device_poll_start(code, 100), (1000, 1));
}

fn step(state: UpdateState, reply: UpdateReply) -> (UpdateState, UpdateAction) {
    assert!(accepts_reply(state, &reply));
    update_step(state, "2024-01-01T00:00:00Z", "Title", "<div>new</div>", reply)
}

#[test]
fn update_of_a_page_changed_remotely_is_a_conflict() {
    let (next, action) = step(UpdateState::CheckingRemote, UpdateReply::Remote(created("p1", "Page", "2024-02-02T00:00:00Z")));
    assert_eq!(next, UpdateState::Finished);
    assert!(matches!(action, UpdateAction::Conflict(m) if m == "2024-02-02T00:00:00Z"));
    assert!(!accepts_reply(next, &UpdateReply::Content { status: 200, body: String::new() }));
}

#[test]
fn update_of_an_unchanged_page_patches_its_content_block() {
    let (next, action) = step(UpdateState::CheckingRemote, UpdateReply::Remote(created("p1", "Page", "2024-01-01T00:00:00Z")));
    assert_eq!(next, UpdateState::ReadingContent);
    assert!(matches!(action, UpdateAction::FetchContent));
    let html = r#"<body><div id="div:{7}" data-id="onenote-linux-content">x</div></body>"#;
    let (next, action) =
        step(next, UpdateReply::Content { status: 200, body: html.to_owned() });
    assert_eq!(next, UpdateState::Patching);
    let UpdateAction::Patch(commands) = action else { panic!("expected a patch") };
    assert_eq!(
        commands,
        r#"[{"action":"replace","content":"Title","target":"title"},{"action":"replace","content":"<div>new</div>","target":"div:{7}"}]"#
    );
    let (next, action) = step(next, UpdateReply::Patched { status: 204, body: String::new() });
    assert_eq!(next, UpdateState::Confirming);
    assert!(matches!(action, UpdateAction::FetchUpdated));
    let (next, action) = step(next, UpdateReply::Updated(created("p1", "Page", "2024-03-03T00:00:00Z")));
    assert_eq!(next, UpdateState::Finished);
    assert!(matches!(action, UpdateAction::Done(p) if p.last_modified_date_time == "2024-03-03T00:00:00Z"));
}

#[test]
fn update_failures_end_the_update() {
    let (next, action) = step(UpdateState::ReadingContent, UpdateReply::Content { status: 404, body: String::new() });
    assert_eq!(next, UpdateState::Finished);
    assert!(matches!(action, UpdateAction::Fail(m) if m == "Microsoft Graph request failed with HTTP 404"));
    let (next, action) =
        step(UpdateState::ReadingContent, UpdateReply::Content { status: 200, body: "<p>x</p>".to_owned() });
    assert_eq!(next, UpdateState::Finished);
    assert!(matches!(action, UpdateAction::Fail(m)
        if m == "The linked OneNote page does not contain an updateable OneNote Linux content block"));
    let (next, action) = step(
        UpdateState::Patching,
        UpdateReply::Patched { status: 400, body: r#"{"error":{"message":"bad patch"}}"#.to_owned() },
    );
    assert_eq!(next, UpdateState::Finished);
    assert!(matches!(action, UpdateAction::Fail(m) if m == "Microsoft Graph HTTP 400: bad patch"));
}

#[test]
fn sessions_are_stored_under_the_client_id() {
    assert_eq!(credential_for("abc"), "microsoft-graph:abc");
}

#[test]
fn update_commands_escape_control_characters() {
    assert_eq!(
        update_commands("Tab\there \u{1f}", "x", "line\nbreak \"q\" \\ \u{8}\u{c}\r"),
        r#"[{"action":"replace","content":"Tab\there \u001f","target":"title"},{"action":"replace","content":"line\nbreak \"q\" \\ \b\f\r","target":"x"}]"#
    );
}
