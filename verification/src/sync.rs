//! The state of the Microsoft OneDrive / OneNote connection: what each reply
//! from the background requests does to it and to the project, and what each
//! user action asks to be sent.

use crate::graph::{
    CreatedPage, DeviceCode, GraphNotebook, GraphSection, TokenSecret, TokenView,
    GRAPH_SYNC_VERSION,
};
use crate::model::{opt_view, GraphPageLink, LinkView, Project, ProjectView, SyncView};
use crate::text::{decimal, push_decimal, trim, trim_spec};
use vstd::prelude::*;

verus! {

/// Mathematical view of a device sign-in code.
pub struct DeviceCodeView {
    pub device_code: Seq<char>,
    pub user_code: Seq<char>,
    pub verification_uri: Seq<char>,
    pub expires_in: u64,
    pub interval: u64,
    pub message: Seq<char>,
}

impl View for DeviceCode {
    type V = DeviceCodeView;

    open spec fn view(&self) -> DeviceCodeView {
        DeviceCodeView {
            device_code: self.device_code@,
            user_code: self.user_code@,
            verification_uri: self.verification_uri@,
            expires_in: self.expires_in,
            interval: self.interval,
            message: self.message@,
        }
    }
}

/// Mathematical view of a notebook or a section on the account.
pub struct GraphItemView {
    pub id: Seq<char>,
    pub display_name: Seq<char>,
    pub is_default: bool,
}

impl View for GraphNotebook {
    type V = GraphItemView;

    open spec fn view(&self) -> GraphItemView {
        GraphItemView { id: self.id@, display_name: self.display_name@, is_default: self.is_default }
    }
}

impl View for GraphSection {
    type V = GraphItemView;

    open spec fn view(&self) -> GraphItemView {
        GraphItemView { id: self.id@, display_name: self.display_name@, is_default: self.is_default }
    }
}

/// The view of a list of notebooks.
pub open spec fn notebooks_view(items: Seq<GraphNotebook>) -> Seq<GraphItemView> {
    items.map_values(|n: GraphNotebook| n@)
}

/// The view of a list of sections.
pub open spec fn graph_sections_view(items: Seq<GraphSection>) -> Seq<GraphItemView> {
    items.map_values(|n: GraphSection| n@)
}

/// The view of a list of strings.
pub open spec fn strings_view(items: Seq<String>) -> Seq<Seq<char>> {
    items.map_values(|s: String| s@)
}

/// The view of an optional session.
pub open spec fn opt_token_view(t: Option<TokenSecret>) -> Option<TokenView> {
    match t {
        Some(t) => Some(t@),
        None => None,
    }
}

/// The view of an optional device code.
pub open spec fn opt_code_view(c: Option<DeviceCode>) -> Option<DeviceCodeView> {
    match c {
        Some(c) => Some(c@),
        None => None,
    }
}

/// A reply from a background Microsoft request.
#[derive(Debug)]
pub enum GraphEvent {
    DeviceCode(DeviceCode),
    SignedIn(TokenSecret),
    SessionLoaded(Option<TokenSecret>),
    Notebooks(TokenSecret, Vec<GraphNotebook>),
    Sections(TokenSecret, Vec<GraphSection>),
    PageCreated {
        token: TokenSecret,
        local_page_id: u64,
        notebook: GraphNotebook,
        section: GraphSection,
        page: CreatedPage,
        warnings: Vec<String>,
    },
    PageUpdated { token: TokenSecret, local_page_id: u64, page: CreatedPage, warnings: Vec<String> },
    PageConflict { token: TokenSecret, remote_modified_at: String },
    SignedOut,
    Error(String),
}

impl GraphEvent {
    /// The session a reply carries, which is to be stored before the reply is
    /// handled.
    pub fn token(&self) -> (r: Option<&TokenSecret>)
        ensures
            r == match self {
                GraphEvent::SignedIn(t) => Some(t),
                GraphEvent::Notebooks(t, _) => Some(t),
                GraphEvent::Sections(t, _) => Some(t),
                GraphEvent::PageCreated { token, .. } => Some(token),
                GraphEvent::PageUpdated { token, .. } => Some(token),
                GraphEvent::PageConflict { token, .. } => Some(token),
                _ => None::<&TokenSecret>,
            },
    {
        match self {
            GraphEvent::SignedIn(t) => Some(t),
            GraphEvent::Notebooks(t, _) => Some(t),
            GraphEvent::Sections(t, _) => Some(t),
            GraphEvent::PageCreated { token, .. } => Some(token),
            GraphEvent::PageUpdated { token, .. } => Some(token),
            GraphEvent::PageConflict { token, .. } => Some(token),
            _ => None,
        }
    }
}

/// The Microsoft connection as the OneDrive dialog shows it.
#[derive(Debug)]
pub struct GraphState {
    pub open: bool,
    /// The Microsoft Entra application client id.
    pub client_id: String,
    pub token: Option<TokenSecret>,
    pub device_code: Option<DeviceCode>,
    pub notebooks: Vec<GraphNotebook>,
    pub sections: Vec<GraphSection>,
    pub selected_notebook: usize,
    pub selected_section: usize,
    pub busy: bool,
    pub status: String,
    pub warnings: Vec<String>,
}

/// Mathematical view of the connection state.
pub struct GraphStateView {
    pub open: bool,
    pub client_id: Seq<char>,
    pub token: Option<TokenView>,
    pub device_code: Option<DeviceCodeView>,
    pub notebooks: Seq<GraphItemView>,
    pub sections: Seq<GraphItemView>,
    pub selected_notebook: usize,
    pub selected_section: usize,
    pub busy: bool,
    pub status: Seq<char>,
    pub warnings: Seq<Seq<char>>,
}

impl View for GraphState {
    type V = GraphStateView;

    open spec fn view(&self) -> GraphStateView {
        GraphStateView {
            open: self.open,
            client_id: self.client_id@,
            token: opt_token_view(self.token),
            device_code: opt_code_view(self.device_code),
            notebooks: notebooks_view(self.notebooks@),
            sections: graph_sections_view(self.sections@),
            selected_notebook: self.selected_notebook,
            selected_section: self.selected_section,
            busy: self.busy,
            status: self.status@,
            warnings: strings_view(self.warnings@),
        }
    }
}

/// The index of the first default item, if any.
pub open spec fn default_position(items: Seq<GraphItemView>) -> Option<nat>
    decreases items.len(),
{
    if items.len() == 0 {
        None
    } else if items[0].is_default {
        Some(0)
    } else {
        match default_position(items.drop_first()) {
            Some(k) => Some(k + 1),
            None => None,
        }
    }
}

/// The item selected after a list is loaded: the first default one, else the
/// first.
pub open spec fn default_selection(items: Seq<GraphItemView>) -> nat {
    match default_position(items) {
        Some(k) => k,
        None => 0,
    }
}

/// `default_position` characterized by the first default index.
proof fn lemma_default_position(items: Seq<GraphItemView>, i: int)
    requires
        0 <= i <= items.len(),
        forall|j: int| 0 <= j < i ==> !(#[trigger] items[j]).is_default,
        i < items.len() ==> items[i].is_default,
    ensures
        default_position(items) == (if i < items.len() {
            Some(i as nat)
        } else {
            None::<nat>
        }),
    decreases i,
{
    if items.len() == 0 {
    } else if i == 0 {
    } else {
        let rest = items.drop_first();
        assert forall|j: int| 0 <= j < i - 1 implies !(#[trigger] rest[j]).is_default by {
            assert(rest[j] == items[j + 1]);
        }
        if i < items.len() {
            assert(rest[i - 1] == items[i]);
        }
        assert(!items[0].is_default);
        lemma_default_position(rest, i - 1);
    }
}

/// The message shown after a Microsoft operation: a failure to store the
/// session, when there was one, takes the place of the success message.
pub open spec fn or_storage(storage_error: Option<Seq<char>>, success: Seq<char>) -> Seq<char> {
    match storage_error {
        Some(e) => e,
        None => success,
    }
}

/// The connection state after a reply.
pub open spec fn after_event(s: GraphStateView, event: GraphEvent, storage_error: Option<Seq<char>>) -> GraphStateView {
    match event {
        GraphEvent::DeviceCode(code) => GraphStateView {
            status: "Waiting for Microsoft sign-in"@,
            device_code: Some(code@),
            ..s
        },
        GraphEvent::SignedIn(token) => GraphStateView {
            token: Some(token@),
            device_code: None,
            busy: false,
            status: or_storage(storage_error, "Signed in to Microsoft"@),
            ..s
        },
        GraphEvent::SessionLoaded(token) => GraphStateView {
            token: opt_token_view(token),
            busy: false,
            status: if token is Some {
                "Restored Microsoft session"@
            } else {
                "No saved Microsoft session"@
            },
            ..s
        },
        GraphEvent::Notebooks(token, notebooks) => GraphStateView {
            token: Some(token@),
            notebooks: notebooks_view(notebooks@),
            selected_notebook: default_selection(notebooks_view(notebooks@)) as usize,
            sections: Seq::empty(),
            busy: false,
            status: or_storage(
                storage_error,
                "Loaded "@ + decimal(notebooks@.len()) + " notebook(s)"@,
            ),
            ..s
        },
        GraphEvent::Sections(token, sections) => GraphStateView {
            token: Some(token@),
            sections: graph_sections_view(sections@),
            selected_section: default_selection(graph_sections_view(sections@)) as usize,
            busy: false,
            status: or_storage(
                storage_error,
                "Loaded "@ + decimal(sections@.len()) + " section(s)"@,
            ),
            ..s
        },
        GraphEvent::PageCreated { token, page, warnings, .. } => GraphStateView {
            token: Some(token@),
            busy: false,
            status: or_storage(storage_error, "Uploaded page "@ + "“"@ + page.title@ + "”"@),
            warnings: strings_view(warnings@),
            ..s
        },
        GraphEvent::PageUpdated { token, page, warnings, .. } => GraphStateView {
            token: Some(token@),
            busy: false,
            status: or_storage(storage_error, "Updated page "@ + "“"@ + page.title@ + "”"@),
            warnings: strings_view(warnings@),
            ..s
        },
        GraphEvent::PageConflict { token, remote_modified_at } => GraphStateView {
            token: Some(token@),
            busy: false,
            status: or_storage(
                storage_error,
                "Update blocked: the OneNote page changed remotely at "@ + remote_modified_at@,
            ),
            warnings: Seq::empty(),
            ..s
        },
        GraphEvent::SignedOut => GraphStateView {
            token: None,
            notebooks: Seq::empty(),
            sections: Seq::empty(),
            busy: false,
            status: "Signed out"@,
            ..s
        },
        GraphEvent::Error(error) => GraphStateView { busy: false, status: error@, ..s },
    }
}

/// The link a successful upload or update records.
pub open spec fn link_for(page: CreatedPage) -> LinkView {
    LinkView {
        graph_page_id: page.id@,
        uploaded_at: page.last_modified_date_time@,
        sync_version: GRAPH_SYNC_VERSION,
    }
}

/// The synchronization metadata after a reply: an upload records the
/// notebook, the section and a link for the page; an update refreshes the
/// link of a page that has one; nothing else changes it.
pub open spec fn sync_after_event(g: SyncView, event: GraphEvent) -> SyncView {
    match event {
        GraphEvent::PageCreated { local_page_id, notebook, section, page, .. } => SyncView {
            notebook_id: Some(notebook.id@),
            notebook_name: Some(notebook.display_name@),
            section_id: Some(section.id@),
            section_name: Some(section.display_name@),
            pages: g.pages.insert(local_page_id, link_for(page)),
        },
        GraphEvent::PageUpdated { local_page_id, page, .. } => if g.pages.contains_key(
            local_page_id,
        ) {
            SyncView { pages: g.pages.insert(local_page_id, link_for(page)), ..g }
        } else {
            g
        },
        _ => g,
    }
}

/// Whether a reply changes the project's synchronization metadata.
pub open spec fn changes_project(g: SyncView, event: GraphEvent) -> bool {
    match event {
        GraphEvent::PageCreated { .. } => true,
        GraphEvent::PageUpdated { local_page_id, .. } => g.pages.contains_key(local_page_id),
        _ => false,
    }
}

/// The view of an optional project.
pub open spec fn opt_project_view(p: Option<Project>) -> Option<ProjectView> {
    match p {
        Some(p) => Some(p@),
        None => None,
    }
}

/// The project after a reply.
pub open spec fn project_after_event(p: Option<ProjectView>, event: GraphEvent) -> Option<ProjectView> {
    match p {
        Some(p) => Some(ProjectView { graph_sync: sync_after_event(p.graph_sync, event), ..p }),
        None => None,
    }
}

/// Records the page a successful upload created.
pub fn record_upload(
    project: &mut Project,
    local_page_id: u64,
    notebook: GraphNotebook,
    section: GraphSection,
    page: CreatedPage,
)
    ensures
        final(project)@ == (ProjectView {
            graph_sync: SyncView {
                notebook_id: Some(notebook.id@),
                notebook_name: Some(notebook.display_name@),
                section_id: Some(section.id@),
                section_name: Some(section.display_name@),
                pages: old(project)@.graph_sync.pages.insert(local_page_id, link_for(page)),
            },
            ..old(project)@
        }),
{
    let ghost created = page;
    project.graph_sync.notebook_id = Some(notebook.id);
    project.graph_sync.notebook_name = Some(notebook.display_name);
    project.graph_sync.section_id = Some(section.id);
    project.graph_sync.section_name = Some(section.display_name);
    let link = GraphPageLink {
        graph_page_id: page.id,
        uploaded_at: page.last_modified_date_time,
        sync_version: GRAPH_SYNC_VERSION,
    };
    let ghost before = old(project).graph_sync.pages@;
    project.graph_sync.pages.insert(local_page_id, link);
    proof {
        assert(project.graph_sync.pages@ == before.insert(local_page_id, link));
        assert(project.graph_sync.pages@.map_values(|l: GraphPageLink| l@) =~= before.map_values(
            |l: GraphPageLink| l@,
        ).insert(local_page_id, link_for(created)));
    }
}

/// Refreshes the link of a page after a successful update; a page without a
/// link is left unlinked.
pub fn record_update(project: &mut Project, local_page_id: u64, page: CreatedPage) -> (changed: bool)
    ensures
        changed == old(project)@.graph_sync.pages.contains_key(local_page_id),
        final(project)@ == (if changed {
            ProjectView {
                graph_sync: SyncView {
                    pages: old(project)@.graph_sync.pages.insert(local_page_id, link_for(page)),
                    ..old(project)@.graph_sync
                },
                ..old(project)@
            }
        } else {
            old(project)@
        }),
{
    let ghost created = page;
    let ghost before = old(project).graph_sync.pages@;
    if !project.graph_sync.pages.contains_key(&local_page_id) {
        return false;
    }
    let link = GraphPageLink {
        graph_page_id: page.id,
        uploaded_at: page.last_modified_date_time,
        sync_version: GRAPH_SYNC_VERSION,
    };
    project.graph_sync.pages.insert(local_page_id, link);
    proof {
        assert(project.graph_sync.pages@.map_values(|l: GraphPageLink| l@) =~= before.map_values(
            |l: GraphPageLink| l@,
        ).insert(local_page_id, link_for(created)));
    }
    true
}

/// The index of the first default notebook, or 0.
fn first_default_notebook(items: &Vec<GraphNotebook>) -> (r: usize)
    ensures
        r == default_selection(notebooks_view(items@)),
{
    let ghost v = notebooks_view(items@);
    let mut i: usize = 0;
    while i < items.len()
        invariant
            i <= items@.len(),
            v == notebooks_view(items@),
            forall|j: int| 0 <= j < i ==> !(#[trigger] v[j]).is_default,
        decreases items@.len() - i,
    {
        if items[i].is_default {
            proof {
                lemma_default_position(v, i as int);
            }
            return i;
        }
        i = i + 1;
    }
    proof {
        lemma_default_position(v, i as int);
    }
    0
}

/// The index of the first default section, or 0.
fn first_default_section(items: &Vec<GraphSection>) -> (r: usize)
    ensures
        r == default_selection(graph_sections_view(items@)),
{
    let ghost v = graph_sections_view(items@);
    let mut i: usize = 0;
    while i < items.len()
        invariant
            i <= items@.len(),
            v == graph_sections_view(items@),
            forall|j: int| 0 <= j < i ==> !(#[trigger] v[j]).is_default,
        decreases items@.len() - i,
    {
        if items[i].is_default {
            proof {
                lemma_default_position(v, i as int);
            }
            return i;
        }
        i = i + 1;
    }
    proof {
        lemma_default_position(v, i as int);
    }
    0
}

/// `"<prefix>“<name>”"`.
fn quoted_message(prefix: &str, name: &str) -> (r: String)
    ensures
        r@ == prefix@ + "“"@ + name@ + "”"@,
{
    let mut out = String::from_str(prefix);
    out.append("“");
    out.append(name);
    out.append("”");
    out
}

/// The message after a Microsoft operation that succeeded.
fn message_or(storage_error: Option<String>, success: String) -> (r: String)
    ensures
        r@ == or_storage(opt_view(storage_error), success@),
{
    match storage_error {
        Some(e) => e,
        None => success,
    }
}

impl GraphState {
    /// A closed dialog for the application `client_id`, not signed in.
    pub fn new(client_id: String) -> (r: GraphState)
        ensures
            r@ == (GraphStateView {
                open: false,
                client_id: client_id@,
                token: None,
                device_code: None,
                notebooks: Seq::empty(),
                sections: Seq::empty(),
                selected_notebook: 0,
                selected_section: 0,
                busy: false,
                status: "Not signed in"@,
                warnings: Seq::empty(),
            }),
    {
        let r = GraphState {
            open: false,
            client_id,
            token: None,
            device_code: None,
            notebooks: Vec::new(),
            sections: Vec::new(),
            selected_notebook: 0,
            selected_section: 0,
            busy: false,
            status: String::from_str("Not signed in"),
            warnings: Vec::new(),
        };
        assert(r@.notebooks =~= Seq::empty());
        assert(r@.sections =~= Seq::empty());
        assert(r@.warnings =~= Seq::empty());
        r
    }

    /// The message shown when storing a session failed; `None` when it was
    /// stored.
    pub fn store_token(saved: Result<(), String>) -> (r: Option<String>)
        ensures
            match saved {
                Ok(()) => r is None,
                Err(e) => r is Some && r->Some_0@ == "Microsoft operation succeeded, but "@ + e@,
            },
    {
        match saved {
            Ok(()) => None,
            Err(e) => {
                let mut out = String::from_str("Microsoft operation succeeded, but ");
                out.append(e.as_str());
                Some(out)
            },
        }
    }

    /// Handles one reply. `storage_error` is what `store_token` reported for
    /// the session the reply carries. Returns whether the project changed.
    pub fn poll(&mut self, event: GraphEvent, storage_error: Option<String>, project: &mut Option<Project>) -> (changed: bool)
        ensures
            final(self)@ == after_event(old(self)@, event, opt_view(storage_error)),
            opt_project_view(*final(project)) == project_after_event(opt_project_view(*old(project)), event),
            changed == match *old(project) {
                Some(p) => changes_project(p@.graph_sync, event),
                None => false,
            },
    {
        let ghost e = event;
        let ghost s = self@;
        match event {
            GraphEvent::DeviceCode(code) => {
                self.status = String::from_str("Waiting for Microsoft sign-in");
                self.device_code = Some(code);
                false
            },
            GraphEvent::SignedIn(token) => {
                self.token = Some(token);
                self.device_code = None;
                self.busy = false;
                self.status = message_or(storage_error, String::from_str("Signed in to Microsoft"));
                false
            },
            GraphEvent::SessionLoaded(token) => {
                let restored = token.is_some();
                self.token = token;
                self.busy = false;
                self.status = if restored {
                    String::from_str("Restored Microsoft session")
                } else {
                    String::from_str("No saved Microsoft session")
                };
                false
            },
            GraphEvent::Notebooks(token, notebooks) => {
                self.token = Some(token);
                let selected = first_default_notebook(&notebooks);
                let mut success = String::from_str("Loaded ");
                push_decimal(&mut success, notebooks.len() as u64);
                success.append(" notebook(s)");
                self.notebooks = notebooks;
                self.selected_notebook = selected;
                self.sections = Vec::new();
                self.busy = false;
                self.status = message_or(storage_error, success);
                assert(self@.sections =~= Seq::empty());
                false
            },
            GraphEvent::Sections(token, sections) => {
                self.token = Some(token);
                let selected = first_default_section(&sections);
                let mut success = String::from_str("Loaded ");
                push_decimal(&mut success, sections.len() as u64);
                success.append(" section(s)");
                self.sections = sections;
                self.selected_section = selected;
                self.busy = false;
                self.status = message_or(storage_error, success);
                false
            },
            GraphEvent::PageCreated { token, local_page_id, notebook, section, page, warnings } => {
                self.token = Some(token);
                self.busy = false;
                self.status = message_or(storage_error, quoted_message("Uploaded page ", page.title.as_str()));
                self.warnings = warnings;
                match project.take() {
                    Some(mut p) => {
                        record_upload(&mut p, local_page_id, notebook, section, page);
                        *project = Some(p);
                        true
                    },
                    None => false,
                }
            },
            GraphEvent::PageUpdated { token, local_page_id, page, warnings } => {
                self.token = Some(token);
                self.busy = false;
                self.status = message_or(storage_error, quoted_message("Updated page ", page.title.as_str()));
                self.warnings = warnings;
                match project.take() {
                    Some(mut p) => {
                        let changed = record_update(&mut p, local_page_id, page);
                        *project = Some(p);
                        changed
                    },
                    None => false,
                }
            },
            GraphEvent::PageConflict { token, remote_modified_at } => {
                self.token = Some(token);
                self.busy = false;
                let mut success = String::from_str("Update blocked: the OneNote page changed remotely at ");
                success.append(remote_modified_at.as_str());
                self.status = message_or(storage_error, success);
                self.warnings = Vec::new();
                assert(self@.warnings =~= Seq::empty());
                false
            },
            GraphEvent::SignedOut => {
                self.token = None;
                self.notebooks = Vec::new();
                self.sections = Vec::new();
                self.busy = false;
                self.status = String::from_str("Signed out");
                assert(self@.notebooks =~= Seq::empty());
                assert(self@.sections =~= Seq::empty());
                false
            },
            GraphEvent::Error(error) => {
                self.busy = false;
                self.status = error;
                false
            },
        }
    }
}

impl GraphNotebook {
    /// A copy of the notebook.
    pub fn duplicate(&self) -> (r: GraphNotebook)
        ensures
            r@ == self@,
    {
        GraphNotebook { id: self.id.clone(), display_name: self.display_name.clone(), is_default: self.is_default }
    }
}

impl GraphSection {
    /// A copy of the section.
    pub fn duplicate(&self) -> (r: GraphSection)
        ensures
            r@ == self@,
    {
        GraphSection { id: self.id.clone(), display_name: self.display_name.clone(), is_default: self.is_default }
    }
}

/// The client id in effect: the one given by the environment when it holds
/// more than white space, else the saved one.
pub fn configured_client_id(saved: String, environment: Option<String>) -> (r: String)
    ensures
        r@ == match environment {
            Some(e) => if trim_spec(e@).len() > 0 {
                e@
            } else {
                saved@
            },
            None => saved@,
        },
{
    match environment {
        Some(e) => {
            let trimmed = trim(e.as_str());
            if trimmed.as_str().is_empty() {
                saved
            } else {
                e
            }
        },
        None => saved,
    }
}

/// Where a page is uploaded: the session, and the selected notebook and section.
#[derive(Debug)]
pub struct UploadTarget {
    pub token: TokenSecret,
    pub notebook: GraphNotebook,
    pub section: GraphSection,
}

/// Whether a page link can be patched safely.
pub fn link_is_current(link: &GraphPageLink) -> (r: bool)
    ensures
        r == (link.sync_version == GRAPH_SYNC_VERSION),
{
    link.sync_version == GRAPH_SYNC_VERSION
}

impl GraphState {
    /// Starts a device sign-in. Without a client id only the status changes;
    /// otherwise the state turns busy and the trimmed client id to sign in
    /// with is returned.
    pub fn start_sign_in(&mut self) -> (r: Option<String>)
        ensures
            trim_spec(old(self)@.client_id).len() == 0 ==> r is None && final(self)@ == (GraphStateView {
                status: "Configure a Microsoft Entra client ID first"@,
                ..old(self)@
            }),
            trim_spec(old(self)@.client_id).len() > 0 ==> r is Some && r->Some_0@ == trim_spec(
                old(self)@.client_id,
            ) && final(self)@ == (GraphStateView {
                busy: true,
                device_code: None,
                status: "Requesting Microsoft sign-in code…"@,
                ..old(self)@
            }),
    {
        let client_id = trim(self.client_id.as_str());
        if client_id.as_str().is_empty() {
            self.status = String::from_str("Configure a Microsoft Entra client ID first");
            return None;
        }
        self.busy = true;
        self.device_code = None;
        self.status = String::from_str("Requesting Microsoft sign-in code…");
        Some(client_id)
    }

    /// Starts loading the saved session. Without a client id only the status
    /// changes; otherwise the state turns busy and the trimmed client id is
    /// returned.
    pub fn load_saved_session(&mut self) -> (r: Option<String>)
        ensures
            trim_spec(old(self)@.client_id).len() == 0 ==> r is None && final(self)@ == (GraphStateView {
                status: "Configure a Microsoft Entra client ID first"@,
                ..old(self)@
            }),
            trim_spec(old(self)@.client_id).len() > 0 ==> r is Some && r->Some_0@ == trim_spec(
                old(self)@.client_id,
            ) && final(self)@ == (GraphStateView { busy: true, ..old(self)@ }),
    {
        let client_id = trim(self.client_id.as_str());
        if client_id.as_str().is_empty() {
            self.status = String::from_str("Configure a Microsoft Entra client ID first");
            return None;
        }
        self.busy = true;
        Some(client_id)
    }

    /// Starts loading the notebooks: with a session, the state turns busy and
    /// the client id and the session are returned; without one nothing happens.
    pub fn load_notebooks(&mut self) -> (r: Option<(String, TokenSecret)>)
        ensures
            old(self)@.token is None ==> r is None && final(self)@ == old(self)@,
            old(self)@.token is Some ==> r is Some && r->Some_0.0@ == old(self)@.client_id
                && Some(r->Some_0.1@) == old(self)@.token && final(self)@ == (GraphStateView {
                busy: true,
                ..old(self)@
            }),
    {
        let token = match &self.token {
            Some(t) => t.duplicate(),
            None => return None,
        };
        self.busy = true;
        Some((self.client_id.clone(), token))
    }

    /// Starts loading the sections of the selected notebook: with a session
    /// and a selected notebook, the state turns busy and the client id, the
    /// session and the notebook's id are returned; otherwise nothing happens.
    pub fn load_sections(&mut self) -> (r: Option<(String, TokenSecret, String)>)
        ensures
            (old(self)@.token is None || old(self)@.selected_notebook >= old(self)@.notebooks.len())
                ==> r is None && final(self)@ == old(self)@,
            (old(self)@.token is Some && old(self)@.selected_notebook < old(self)@.notebooks.len())
                ==> r is Some && r->Some_0.0@ == old(self)@.client_id && Some(r->Some_0.1@)
                == old(self)@.token && r->Some_0.2@ == old(
                self,
            )@.notebooks[old(self)@.selected_notebook as int].id && final(self)@ == (GraphStateView {
                busy: true,
                ..old(self)@
            }),
    {
        let token = match &self.token {
            Some(t) => t.duplicate(),
            None => return None,
        };
        if self.selected_notebook >= self.notebooks.len() {
            return None;
        }
        let notebook_id = self.notebooks[self.selected_notebook].id.clone();
        self.busy = true;
        Some((self.client_id.clone(), token, notebook_id))
    }

    /// Where the current page would be uploaded: the session and the selected
    /// notebook and section, when all three exist.
    pub fn upload_target(&self) -> (r: Option<UploadTarget>)
        ensures
            match r {
                Some(t) => self@.token == Some(t.token@) && self@.selected_notebook
                    < self@.notebooks.len() && self@.selected_section < self@.sections.len()
                    && t.notebook@ == self@.notebooks[self@.selected_notebook as int]
                    && t.section@ == self@.sections[self@.selected_section as int],
                None => self@.token is None || self@.selected_notebook >= self@.notebooks.len()
                    || self@.selected_section >= self@.sections.len(),
            },
    {
        let token = match &self.token {
            Some(t) => t.duplicate(),
            None => return None,
        };
        if self.selected_notebook >= self.notebooks.len() || self.selected_section
            >= self.sections.len() {
            return None;
        }
        let notebook = self.notebooks[self.selected_notebook].duplicate();
        let section = self.sections[self.selected_section].duplicate();
        assert(notebook@ == self@.notebooks[self@.selected_notebook as int]);
        assert(section@ == self@.sections[self@.selected_section as int]);
        Some(UploadTarget { token, notebook, section })
    }

    /// The session an update of a linked page is sent with.
    pub fn update_session(&self) -> (r: Option<TokenSecret>)
        ensures
            opt_token_view(r) == self@.token,
    {
        match &self.token {
            Some(t) => Some(t.duplicate()),
            None => None,
        }
    }

    /// Marks the upload of the page titled `title` as started.
    pub fn begin_upload(&mut self, title: &str)
        ensures
            final(self)@ == (GraphStateView {
                busy: true,
                status: "Uploading "@ + "“"@ + title@ + "”…"@,
                ..old(self)@
            }),
    {
        self.busy = true;
        self.status = quoted_message("Uploading ", title);
        self.status.append("…");
        assert(self.status@ =~= "Uploading "@ + "“"@ + title@ + "”…"@) by {
            reveal_strlit("”");
            reveal_strlit("…");
            reveal_strlit("”…");
        }
    }

    /// Marks the update of the linked page titled `title` as started.
    pub fn begin_update(&mut self, title: &str)
        ensures
            final(self)@ == (GraphStateView {
                busy: true,
                status: "Checking and updating "@ + "“"@ + title@ + "”…"@,
                ..old(self)@
            }),
    {
        self.busy = true;
        self.status = quoted_message("Checking and updating ", title);
        self.status.append("…");
        assert(self.status@ =~= "Checking and updating "@ + "“"@ + title@ + "”…"@) by {
            reveal_strlit("”");
            reveal_strlit("…");
            reveal_strlit("”…");
        }
    }

    /// Shows a message in place of the status.
    pub fn report(&mut self, message: String)
        ensures
            final(self)@ == (GraphStateView { status: message@, ..old(self)@ }),
    {
        self.status = message;
    }

    /// Starts signing out: the state turns busy and the client id whose
    /// stored session is to be deleted is returned.
    pub fn sign_out(&mut self) -> (r: String)
        ensures
            r@ == old(self)@.client_id,
            final(self)@ == (GraphStateView { busy: true, ..old(self)@ }),
    {
        self.busy = true;
        self.client_id.clone()
    }

    /// The name the session is stored under in the credential store.
    pub fn credential_name(&self) -> (r: String)
        ensures
            r@ == credential_spec(self@.client_id),
    {
        credential_for(self.client_id.as_str())
    }
}

/// The name a session for `client_id` is stored under in the credential store.
pub open spec fn credential_spec(client_id: Seq<char>) -> Seq<char> {
    "microsoft-graph:"@ + client_id
}

/// The name a session for `client_id` is stored under in the credential store.
pub fn credential_for(client_id: &str) -> (r: String)
    ensures
        r@ == credential_spec(client_id@),
{
    let mut r = String::from_str("microsoft-graph:");
    r.append(client_id);
    r
}

/// Every reply but the sign-in code ends the busy state, and the sign-in code
/// leaves it as it was.
pub proof fn lemma_replies_end_busy(s: GraphStateView, event: GraphEvent, storage_error: Option<Seq<char>>)
    ensures
        !(event is DeviceCode) ==> !after_event(s, event, storage_error).busy,
        event is DeviceCode ==> after_event(s, event, storage_error).busy == s.busy,
{
}

/// A reply that carries a session makes it the current session, and signing
/// out forgets it.
pub proof fn lemma_replies_install_session(s: GraphStateView, event: GraphEvent, storage_error: Option<Seq<char>>)
    ensures
        match event {
            GraphEvent::SignedIn(t) => after_event(s, event, storage_error).token == Some(t@),
            GraphEvent::Notebooks(t, _) => after_event(s, event, storage_error).token == Some(t@),
            GraphEvent::Sections(t, _) => after_event(s, event, storage_error).token == Some(t@),
            GraphEvent::PageCreated { token, .. } => after_event(s, event, storage_error).token
                == Some(token@),
            GraphEvent::PageUpdated { token, .. } => after_event(s, event, storage_error).token
                == Some(token@),
            GraphEvent::PageConflict { token, .. } => after_event(s, event, storage_error).token
                == Some(token@),
            GraphEvent::SignedOut => after_event(s, event, storage_error).token is None,
            _ => true,
        },
{
}

/// A page uploaded successfully is linked with a current link, so it can be
/// updated later; the links of other pages are kept.
pub proof fn lemma_upload_links_page(g: SyncView, event: GraphEvent)
    requires
        event is PageCreated,
    ensures
        sync_after_event(g, event).pages.contains_key(event->PageCreated_local_page_id),
        sync_after_event(g, event).pages[event->PageCreated_local_page_id].sync_version == GRAPH_SYNC_VERSION,
        forall|id: u64|
            id != event->PageCreated_local_page_id && #[trigger] g.pages.contains_key(id) ==> sync_after_event(
                g,
                event,
            ).pages.contains_key(id) && sync_after_event(g, event).pages[id] == g.pages[id],
{
}

/// An update never links a page that was not linked, and keeps the
/// linked pages linked.
pub proof fn lemma_update_keeps_linked_pages(g: SyncView, event: GraphEvent)
    requires
        event is PageUpdated,
    ensures
        sync_after_event(g, event).pages.dom() == g.pages.dom(),
{
    let after = sync_after_event(g, event);
    if g.pages.contains_key(event->PageUpdated_local_page_id) {
        assert(after.pages.dom() =~= g.pages.dom());
    }
}

/// A reply that reports a conflict, an error or anything but an upload or an
/// update leaves the project's synchronization metadata unchanged.
pub proof fn lemma_other_replies_keep_project(g: SyncView, event: GraphEvent)
    requires
        !(event is PageCreated),
        !(event is PageUpdated),
    ensures
        sync_after_event(g, event) == g,
        !changes_project(g, event),
{
}

} // verus!
