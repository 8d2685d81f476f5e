//! The Blueprint protocol's data model: Todo states, graph nodes, details, and the inputs and
//! outputs of the Blueprint tools.
use vstd::prelude::*;

use crate::blueprint::body::ExternalBody;
use crate::text::{push_str, str_eq};

verus! {

#[derive(Clone, Copy, Debug, PartialEq, Eq)]
pub enum TodoStatus {
    Pending,
    InProgress,
    Completed,
    Blocked,
    Cancelled,
}

/// The task-list marker written for each status.
pub open spec fn status_marker(s: TodoStatus) -> Seq<char> {
    match s {
        TodoStatus::Pending => " "@,
        TodoStatus::InProgress => "/"@,
        TodoStatus::Completed => "x"@,
        TodoStatus::Blocked => "?"@,
        TodoStatus::Cancelled => "-"@,
    }
}

/// The status a task-list marker character stands for.
pub open spec fn status_of_marker(c: char) -> Option<TodoStatus> {
    if c == ' ' {
        Some(TodoStatus::Pending)
    } else if c == '/' {
        Some(TodoStatus::InProgress)
    } else if c == 'x' || c == 'X' {
        Some(TodoStatus::Completed)
    } else if c == '?' {
        Some(TodoStatus::Blocked)
    } else if c == '-' {
        Some(TodoStatus::Cancelled)
    } else {
        None
    }
}

/// The character of the marker written for each status.
pub open spec fn marker_char(s: TodoStatus) -> char {
    match s {
        TodoStatus::Pending => ' ',
        TodoStatus::InProgress => '/',
        TodoStatus::Completed => 'x',
        TodoStatus::Blocked => '?',
        TodoStatus::Cancelled => '-',
    }
}

/// The marker written for a status reads back as that status, and the one-character marker
/// text is that character: writing a status and reading it again gives the status.
pub proof fn marker_reads_back(s: TodoStatus)
    ensures
        status_of_marker(marker_char(s)) == Some(s),
        status_marker(s) == seq![marker_char(s)],
{
    match s {
        TodoStatus::Pending => {
            reveal_strlit(" ");
            assert(status_marker(s) =~= seq![marker_char(s)]);
        },
        TodoStatus::InProgress => {
            reveal_strlit("/");
            assert(status_marker(s) =~= seq![marker_char(s)]);
        },
        TodoStatus::Completed => {
            reveal_strlit("x");
            assert(status_marker(s) =~= seq![marker_char(s)]);
        },
        TodoStatus::Blocked => {
            reveal_strlit("?");
            assert(status_marker(s) =~= seq![marker_char(s)]);
        },
        TodoStatus::Cancelled => {
            reveal_strlit("-");
            assert(status_marker(s) =~= seq![marker_char(s)]);
        },
    }
}

/// A task's box is checked (`x`) exactly when its Todo is completed, and empty exactly when
/// it is pending.
pub proof fn marker_meaning(s: TodoStatus)
    ensures
        (marker_char(s) == 'x') <==> (s == TodoStatus::Completed),
        (marker_char(s) == ' ') <==> (s == TodoStatus::Pending),
        (marker_char(s) == '-') <==> (s == TodoStatus::Cancelled),
{
}

/// The protocol name of each status.
pub open spec fn status_name(s: TodoStatus) -> Seq<char> {
    match s {
        TodoStatus::Pending => "pending"@,
        TodoStatus::InProgress => "in_progress"@,
        TodoStatus::Completed => "completed"@,
        TodoStatus::Blocked => "blocked"@,
        TodoStatus::Cancelled => "cancelled"@,
    }
}

impl TodoStatus {
    pub fn marker(self) -> (m: &'static str)
        ensures
            m@ == status_marker(self),
            m@.len() == 1 && status_of_marker(m@[0]) == Some(self),
    {
        proof {
            marker_reads_back(self);
        }
        match self {
            TodoStatus::Pending => " ",
            TodoStatus::InProgress => "/",
            TodoStatus::Completed => "x",
            TodoStatus::Blocked => "?",
            TodoStatus::Cancelled => "-",
        }
    }

    pub fn marker_char(self) -> (c: char)
        ensures
            c == marker_char(self),
            status_of_marker(c) == Some(self),
    {
        match self {
            TodoStatus::Pending => ' ',
            TodoStatus::InProgress => '/',
            TodoStatus::Completed => 'x',
            TodoStatus::Blocked => '?',
            TodoStatus::Cancelled => '-',
        }
    }

    pub fn from_marker(marker: char) -> (r: Option<Self>)
        ensures
            r == status_of_marker(marker),
    {
        if marker == ' ' {
            Some(TodoStatus::Pending)
        } else if marker == '/' {
            Some(TodoStatus::InProgress)
        } else if marker == 'x' || marker == 'X' {
            Some(TodoStatus::Completed)
        } else if marker == '?' {
            Some(TodoStatus::Blocked)
        } else if marker == '-' {
            Some(TodoStatus::Cancelled)
        } else {
            None
        }
    }

    /// The protocol name of the status, as it is written in JSON.
    pub fn name(self) -> (n: &'static str)
        ensures
            n@ == status_name(self),
    {
        match self {
            TodoStatus::Pending => "pending",
            TodoStatus::InProgress => "in_progress",
            TodoStatus::Completed => "completed",
            TodoStatus::Blocked => "blocked",
            TodoStatus::Cancelled => "cancelled",
        }
    }

    /// Parses a protocol status name (`pending`, `in_progress`, `completed`, `blocked`,
    /// `cancelled`).
    pub fn from_name(value: &str) -> (r: Result<Self, String>)
        ensures
            r matches Ok(s) ==> status_name(s) == value@,
            r is Err ==> forall|s: TodoStatus| status_name(s) != value@,
    {
        if str_eq(value, "pending") {
            Ok(TodoStatus::Pending)
        } else if str_eq(value, "in_progress") {
            Ok(TodoStatus::InProgress)
        } else if str_eq(value, "completed") {
            Ok(TodoStatus::Completed)
        } else if str_eq(value, "blocked") {
            Ok(TodoStatus::Blocked)
        } else if str_eq(value, "cancelled") {
            Ok(TodoStatus::Cancelled)
        } else {
            let mut m = String::new();
            push_str(&mut m, "invalid status: '");
            push_str(&mut m, value);
            push_str(
                &mut m,
                "'; expected one of: pending, in_progress, completed, blocked, or cancelled",
            );
            Err(m)
        }
    }

    pub fn is_terminal(self) -> (b: bool)
        ensures
            b == (self == TodoStatus::Completed || self == TodoStatus::Cancelled),
    {
        match self {
            TodoStatus::Completed | TodoStatus::Cancelled => true,
            _ => false,
        }
    }
}

#[derive(Clone, Debug, PartialEq, Eq)]
pub struct CheckItem {
    pub text: String,
    pub completed: bool,
}

#[derive(Clone, Debug, PartialEq, Eq)]
pub struct DefinitionOfDoneItem {
    pub id: String,
    pub text: String,
    pub completed: bool,
}

/// Lifecycle state recorded in Blueprint frontmatter.
#[derive(Clone, Copy, Debug, PartialEq, Eq)]
pub enum BlueprintState {
    Active,
    Closed,
    Cancelled,
}

pub open spec fn state_name(s: BlueprintState) -> Seq<char> {
    match s {
        BlueprintState::Active => "active"@,
        BlueprintState::Closed => "closed"@,
        BlueprintState::Cancelled => "cancelled"@,
    }
}

/// The message for a text that names no lifecycle state.
pub open spec fn state_error(value: Seq<char>) -> Seq<char> {
    "invalid Blueprint state: '"@ + value + "'; expected active, closed, or cancelled"@
}

impl BlueprintState {
    /// Parses a lifecycle state name (`active`, `closed`, `cancelled`).
    pub fn from_name(value: &str) -> (r: Result<Self, String>)
        ensures
            r matches Ok(s) ==> state_name(s) == value@,
            r is Err ==> forall|s: BlueprintState| state_name(s) != value@,
            r matches Err(m) ==> m@ == state_error(value@),
    {
        if str_eq(value, "active") {
            Ok(BlueprintState::Active)
        } else if str_eq(value, "closed") {
            Ok(BlueprintState::Closed)
        } else if str_eq(value, "cancelled") {
            Ok(BlueprintState::Cancelled)
        } else {
            let mut m = String::new();
            push_str(&mut m, "invalid Blueprint state: '");
            push_str(&mut m, value);
            push_str(&mut m, "'; expected active, closed, or cancelled");
            Err(m)
        }
    }

    pub fn name(self) -> (n: &'static str)
        ensures
            n@ == state_name(self),
    {
        match self {
            BlueprintState::Active => "active",
            BlueprintState::Closed => "closed",
            BlueprintState::Cancelled => "cancelled",
        }
    }
}

/// Central Todo Graph node; execution state is authoritative here, not in Todo detail files.
#[derive(Debug, PartialEq, Eq)]
pub struct TodoGraphNode {
    pub id: String,
    pub title: String,
    pub document: String,
    pub status: TodoStatus,
    pub created_by: Option<String>,
    pub owner: Option<String>,
    pub completed_by: Option<String>,
    pub depends_on: Vec<String>,
    pub block_reason: Option<String>,
    pub cancel_reason: Option<String>,
    pub children: Vec<TodoGraphNode>,
}

/// An Evidence block retained exactly as Markdown.
#[derive(Clone, Debug, PartialEq, Eq)]
pub struct EvidenceItem {
    pub id: String,
    pub markdown: String,
}

/// An append-only revision record retained exactly as Markdown.
#[derive(Clone, Debug, PartialEq, Eq)]
pub struct RevisionEntry {
    pub id: String,
    pub markdown: String,
}

/// Submits one Evidence block to a Todo.
#[derive(Clone, Debug)]
pub struct EvidenceSubmitInput {
    pub blueprint_id: String,
    pub todo_id: String,
    pub changed_by: String,
    pub title: String,
    pub body: ExternalBody,
    pub expected_etag: Option<String>,
}

#[derive(Clone, Debug)]
pub struct EvidenceListInput {
    pub blueprint_id: String,
    pub todo_id: String,
    pub page: usize,
}

#[derive(Clone, Debug, PartialEq, Eq)]
pub struct EvidenceSummary {
    pub id: String,
    pub title: String,
    pub todo_id: String,
    pub body_preview: String,
}

#[derive(Clone, Debug, PartialEq, Eq)]
pub struct EvidencePagination {
    pub page: usize,
    pub total_pages: usize,
    pub total_evidence: usize,
}

#[derive(Clone, Debug, PartialEq, Eq)]
pub struct EvidenceListOutput {
    pub evidence: Vec<EvidenceSummary>,
    pub pagination: EvidencePagination,
    pub index_status: String,
}

#[derive(Clone, Debug, Default, PartialEq, Eq)]
pub struct ResultsInput {
    pub body: ExternalBody,
    pub evidence_ids: Vec<String>,
}

/// The first page, the default of paginated listings.
pub fn default_page() -> (p: usize)
    ensures
        p == 1,
{
    1
}

/// Typed content of a standalone Todo detail document.
#[derive(Clone, Debug, PartialEq, Eq)]
pub struct TodoDetail {
    pub id: String,
    pub blueprint_id: String,
    pub title: String,
    pub created_by: String,
    pub owner: String,
    pub completed_by: Option<String>,
    pub block_reason: Option<String>,
    pub cancel_reason: Option<String>,
    pub plan: String,
    pub completion_criteria: Vec<CheckItem>,
    pub handoff: String,
    pub result: String,
    pub evidence: Vec<EvidenceItem>,
    pub revisions: Vec<RevisionEntry>,
    pub notes: String,
}

/// A Todo aggregate: graph state comes from `blueprint.md`, content from its detail document.
#[derive(Clone, Debug, PartialEq, Eq)]
pub struct TodoView {
    pub graph: TodoGraphNode,
    pub detail: TodoDetail,
    pub blueprint_etag: String,
    pub todo_etag: String,
    pub ready: bool,
    pub unsatisfied_dependencies: Vec<DependencyStatus>,
    pub projection: Todo,
}

impl TodoView {
    pub fn new(
        graph: TodoGraphNode,
        detail: TodoDetail,
        blueprint_etag: String,
        todo_etag: String,
        ready: bool,
        unsatisfied_dependencies: Vec<DependencyStatus>,
        projection: Todo,
    ) -> (v: Self)
        ensures
            v == (TodoView {
                graph,
                detail,
                blueprint_etag,
                todo_etag,
                ready,
                unsatisfied_dependencies,
                projection,
            }),
    {
        TodoView {
            graph,
            detail,
            blueprint_etag,
            todo_etag,
            ready,
            unsatisfied_dependencies,
            projection,
        }
    }
}

#[derive(Debug, PartialEq, Eq)]
pub struct Todo {
    pub id: String,
    pub title: String,
    pub status: TodoStatus,
    pub created_by: Option<String>,
    pub owner: Option<String>,
    pub completed_by: Option<String>,
    pub depends_on: Vec<String>,
    pub completion_criteria: Vec<CheckItem>,
    pub handoff: Vec<String>,
    pub result_summary: Option<String>,
    pub references: Vec<String>,
    pub block_reason: Option<String>,
    pub cancel_reason: Option<String>,
    pub children: Vec<Todo>,
}

/// Creation request for a Todo aggregate.
#[derive(Clone, Debug, Default)]
pub struct TodoCreateRequest {
    pub blueprint_id: String,
    pub title: String,
    pub created_by: String,
    pub plan: String,
    pub parent_id: Option<String>,
    pub owner: Option<String>,
    pub depends_on: Vec<String>,
    pub completion_criteria: Vec<String>,
    pub expected_blueprint_etag: Option<String>,
}

/// A cross-document Todo update. Semantic fields require revision metadata.
#[derive(Clone, Debug, Default)]
pub struct TodoPatch {
    pub title: Option<String>,
    pub depends_on: Option<Vec<String>>,
    pub completion_criteria: Option<Vec<CheckUpdate>>,
    pub plan: Option<String>,
    pub handoff: Option<String>,
    pub result: Option<ResultsInput>,
    pub notes: Option<String>,
}

#[derive(Clone, Debug)]
pub struct CheckUpdate {
    pub text: String,
    pub completed: bool,
}

#[derive(Clone, Debug, PartialEq, Eq)]
pub struct DependencyStatus {
    pub id: String,
    pub status: TodoStatus,
}

#[derive(Clone, Debug, PartialEq, Eq)]
pub struct NotReadyTodo {
    pub id: String,
    pub unsatisfied_dependencies: Vec<DependencyStatus>,
}

#[derive(Clone, Debug, Default, PartialEq, Eq)]
pub struct Readiness {
    pub ready: Vec<String>,
    pub not_ready: Vec<NotReadyTodo>,
}

impl View for DependencyStatus {
    type V = (Seq<char>, TodoStatus);

    open spec fn view(&self) -> (Seq<char>, TodoStatus) {
        (self.id@, self.status)
    }
}

impl View for NotReadyTodo {
    type V = (Seq<char>, Seq<(Seq<char>, TodoStatus)>);

    open spec fn view(&self) -> (Seq<char>, Seq<(Seq<char>, TodoStatus)>) {
        (self.id@, self.unsatisfied_dependencies@.map_values(|d: DependencyStatus| d@))
    }
}

impl View for Readiness {
    type V = (Seq<Seq<char>>, Seq<(Seq<char>, Seq<(Seq<char>, TodoStatus)>)>);

    open spec fn view(&self) -> (Seq<Seq<char>>, Seq<(Seq<char>, Seq<(Seq<char>, TodoStatus)>)>) {
        (
            self.ready@.map_values(|s: String| s@),
            self.not_ready@.map_values(|n: NotReadyTodo| n@),
        )
    }
}

/// The structured aggregate returned by `blueprint_get`.
#[derive(Clone, Debug)]
pub struct BlueprintGetOutput {
    pub id: String,
    pub state: BlueprintState,
    pub title: String,
    pub created_by: String,
    pub etag: String,
    pub intent: String,
    pub constraints: String,
    pub definition_of_done: Vec<DefinitionOfDoneItem>,
    pub plan: String,
    pub rubric: String,
    pub todos: Vec<TodoGraphNode>,
    pub results: String,
    pub revisions: Vec<RevisionEntry>,
    pub notes: String,
}

/// The concrete result of `blueprint_list`.
#[derive(Clone, Debug)]
pub struct BlueprintListOutput {
    pub blueprint_ids: Vec<String>,
}

/// The concrete result of `todo_list`.
#[derive(Clone, Debug)]
pub struct TodoListOutput {
    pub todos: Vec<TodoView>,
}

/// Input accepted by `blueprint_create`.
#[derive(Clone, Debug)]
pub struct BlueprintCreateInput {
    pub title: String,
    pub created_by: String,
    pub intent: ExternalBody,
    pub constraints: Vec<String>,
    pub definition_of_done: Vec<String>,
    pub plan: ExternalBody,
    /// The evaluation procedure selected for this Blueprint.
    pub rubric: Option<ExternalBody>,
}

#[derive(Clone, Debug)]
pub struct BlueprintGetInput {
    pub blueprint_id: String,
}

/// Identifies a Blueprint for operations that do not need a view selector.
#[derive(Clone, Debug)]
pub struct BlueprintIdInput {
    pub blueprint_id: String,
}

#[derive(Clone, Debug)]
pub struct BlueprintListInput {
    pub state: String,
}

/// The state listed when none is given.
pub fn active_state() -> (s: String)
    ensures
        s@ == "active"@,
{
    crate::text::to_string("active")
}

#[derive(Clone, Debug)]
pub struct BlueprintUpdateInput {
    pub blueprint_id: String,
    pub intent: Option<ExternalBody>,
    pub constraints: Option<Vec<String>>,
    pub plan: Option<ExternalBody>,
    pub rubric: Option<ExternalBody>,
    pub changed_by: Option<String>,
    pub change_reason: Option<String>,
    pub results: Option<ResultsInput>,
    pub notes: Option<ExternalBody>,
    pub expected_etag: Option<String>,
}

/// Patchable Blueprint sections. Changes to semantic fields require a revision record.
#[derive(Clone, Debug, Default)]
pub struct BlueprintPatch {
    pub intent: Option<String>,
    pub constraints: Option<Vec<String>>,
    pub plan: Option<String>,
    pub rubric: Option<String>,
    pub results: Option<ResultsInput>,
    pub notes: Option<String>,
}

#[derive(Clone, Debug)]
pub struct BlueprintCloseInput {
    pub blueprint_id: String,
    pub closed_by: String,
    pub reason: Option<String>,
    pub expected_etag: Option<String>,
}

#[derive(Clone, Debug)]
pub struct BlueprintCancelInput {
    pub blueprint_id: String,
    pub cancelled_by: String,
    pub reason: String,
    pub expected_etag: Option<String>,
}

#[derive(Clone, Debug)]
pub struct DodUpdateInput {
    pub blueprint_id: String,
    pub dod_id: String,
    pub completed: bool,
    pub note: Option<String>,
    pub expected_etag: Option<String>,
}

#[derive(Clone, Debug)]
pub struct TodoCreateInput {
    pub blueprint_id: String,
    pub title: String,
    pub created_by: String,
    pub plan: ExternalBody,
    pub parent_id: Option<String>,
    pub owner: Option<String>,
    pub depends_on: Vec<String>,
    pub completion_criteria: Vec<String>,
    pub expected_etag: Option<String>,
    pub expected_blueprint_etag: Option<String>,
}

#[derive(Clone, Debug)]
pub struct TodoInput {
    pub blueprint_id: String,
    pub todo_id: String,
    pub expected_etag: Option<String>,
}

#[derive(Clone, Debug)]
pub struct TodoStartInput {
    pub blueprint_id: String,
    pub todo_id: String,
    pub changed_by: String,
    pub expected_etag: Option<String>,
}

#[derive(Clone, Debug)]
pub struct TodoListInput {
    pub blueprint_id: String,
    pub status: Option<TodoStatus>,
    pub owner: Option<String>,
    pub ready: Option<bool>,
}

#[derive(Clone, Debug)]
pub struct CompletionCriterionInput {
    pub text: String,
    pub completed: bool,
}

#[derive(Clone, Debug)]
pub struct TodoUpdateInput {
    pub blueprint_id: String,
    pub todo_id: String,
    pub title: Option<String>,
    pub depends_on: Option<Vec<String>>,
    pub completion_criteria: Option<Vec<CompletionCriterionInput>>,
    pub handoff: Option<Vec<String>>,
    pub plan: Option<ExternalBody>,
    pub result: Option<ResultsInput>,
    pub notes: Option<ExternalBody>,
    pub changed_by: String,
    pub change_reason: Option<String>,
    pub expected_etag: Option<String>,
    pub expected_blueprint_etag: Option<String>,
    pub expected_todo_etag: Option<String>,
}

#[derive(Clone, Debug)]
pub struct TodoAssignInput {
    pub blueprint_id: String,
    pub todo_id: String,
    pub owner: String,
    pub changed_by: String,
    pub expected_etag: Option<String>,
}

#[derive(Clone, Debug)]
pub struct TodoCompleteInput {
    pub blueprint_id: String,
    pub todo_id: String,
    pub changed_by: String,
    pub expected_etag: Option<String>,
    pub expected_blueprint_etag: Option<String>,
    pub expected_todo_etag: Option<String>,
}

#[derive(Clone, Debug)]
pub struct TodoBlockInput {
    pub blueprint_id: String,
    pub todo_id: String,
    pub reason: String,
    pub handoff: String,
    pub changed_by: String,
    pub expected_etag: Option<String>,
    pub expected_blueprint_etag: Option<String>,
    pub expected_todo_etag: Option<String>,
}

#[derive(Clone, Debug)]
pub struct TodoCancelInput {
    pub blueprint_id: String,
    pub todo_id: String,
    pub reason: String,
    pub changed_by: String,
    pub expected_etag: Option<String>,
}

/// A copy of an optional string.
pub fn clone_opt(o: &Option<String>) -> (r: Option<String>)
    ensures
        r == *o,
{
    match o {
        Some(s) => Some(s.clone()),
        None => None,
    }
}

/// A copy of a list of strings.
pub fn clone_strings(v: &Vec<String>) -> (r: Vec<String>)
    ensures
        r@ == v@,
{
    let mut r: Vec<String> = Vec::new();
    let mut i: usize = 0;
    while i < v.len()
        invariant
            i <= v.len(),
            r@ == v@.take(i as int),
        decreases v.len() - i,
    {
        r.push(v[i].clone());
        assert(v@.take(i + 1) =~= v@.take(i as int).push(v@[i as int]));
        i += 1;
    }
    assert(v@.take(v.len() as int) =~= v@);
    r
}

/// A copy of a list of check items.
pub fn clone_checks(v: &Vec<CheckItem>) -> (r: Vec<CheckItem>)
    ensures
        r@ == v@,
{
    let mut r: Vec<CheckItem> = Vec::new();
    let mut i: usize = 0;
    while i < v.len()
        invariant
            i <= v.len(),
            r@ == v@.take(i as int),
        decreases v.len() - i,
    {
        let item = CheckItem { text: v[i].text.clone(), completed: v[i].completed };
        r.push(item);
        assert(v@.take(i + 1) =~= v@.take(i as int).push(v@[i as int]));
        i += 1;
    }
    assert(v@.take(v.len() as int) =~= v@);
    r
}

/// Two Todos with the same fields and pairwise the same children.
pub open spec fn same_todo(a: Todo, b: Todo) -> bool
    decreases a,
{
    &&& a.id == b.id
    &&& a.title == b.title
    &&& a.status == b.status
    &&& a.created_by == b.created_by
    &&& a.owner == b.owner
    &&& a.completed_by == b.completed_by
    &&& a.depends_on@ == b.depends_on@
    &&& a.completion_criteria@ == b.completion_criteria@
    &&& a.handoff@ == b.handoff@
    &&& a.result_summary == b.result_summary
    &&& a.references@ == b.references@
    &&& a.block_reason == b.block_reason
    &&& a.cancel_reason == b.cancel_reason
    &&& a.children.len() == b.children.len()
    &&& forall|i: int|
        0 <= i < a.children.len() ==> same_todo(#[trigger] a.children@[i], b.children@[i])
}

/// Two graph nodes with the same fields and pairwise the same children.
pub open spec fn same_node(a: TodoGraphNode, b: TodoGraphNode) -> bool
    decreases a,
{
    &&& a.id == b.id
    &&& a.title == b.title
    &&& a.document == b.document
    &&& a.status == b.status
    &&& a.created_by == b.created_by
    &&& a.owner == b.owner
    &&& a.completed_by == b.completed_by
    &&& a.depends_on@ == b.depends_on@
    &&& a.block_reason == b.block_reason
    &&& a.cancel_reason == b.cancel_reason
    &&& a.children.len() == b.children.len()
    &&& forall|i: int|
        0 <= i < a.children.len() ==> same_node(#[trigger] a.children@[i], b.children@[i])
}

/// A deep copy of a Todo and its children.
pub fn clone_todo(t: &Todo) -> (r: Todo)
    ensures
        same_todo(r, *t),
    decreases t,
{
    let mut children: Vec<Todo> = Vec::new();
    let mut i: usize = 0;
    while i < t.children.len()
        invariant
            i <= t.children.len(),
            children.len() == i,
            forall|j: int| 0 <= j < i ==> same_todo(#[trigger] children@[j], t.children@[j]),
        decreases t.children.len() - i,
    {
        assert(decreases_to!(t => t.children));
        assert(decreases_to!(t.children => t.children@));
        assert(decreases_to!(t.children@ => t.children@[i as int]));
        let c = clone_todo(&t.children[i]);
        children.push(c);
        i += 1;
    }
    Todo {
        id: t.id.clone(),
        title: t.title.clone(),
        status: t.status,
        created_by: clone_opt(&t.created_by),
        owner: clone_opt(&t.owner),
        completed_by: clone_opt(&t.completed_by),
        depends_on: clone_strings(&t.depends_on),
        completion_criteria: clone_checks(&t.completion_criteria),
        handoff: clone_strings(&t.handoff),
        result_summary: clone_opt(&t.result_summary),
        references: clone_strings(&t.references),
        block_reason: clone_opt(&t.block_reason),
        cancel_reason: clone_opt(&t.cancel_reason),
        children,
    }
}

/// A deep copy of a graph node and its children.
pub fn clone_node(t: &TodoGraphNode) -> (r: TodoGraphNode)
    ensures
        same_node(r, *t),
    decreases t,
{
    let mut children: Vec<TodoGraphNode> = Vec::new();
    let mut i: usize = 0;
    while i < t.children.len()
        invariant
            i <= t.children.len(),
            children.len() == i,
            forall|j: int| 0 <= j < i ==> same_node(#[trigger] children@[j], t.children@[j]),
        decreases t.children.len() - i,
    {
        assert(decreases_to!(t => t.children));
        assert(decreases_to!(t.children => t.children@));
        assert(decreases_to!(t.children@ => t.children@[i as int]));
        let c = clone_node(&t.children[i]);
        children.push(c);
        i += 1;
    }
    TodoGraphNode {
        id: t.id.clone(),
        title: t.title.clone(),
        document: t.document.clone(),
        status: t.status,
        created_by: clone_opt(&t.created_by),
        owner: clone_opt(&t.owner),
        completed_by: clone_opt(&t.completed_by),
        depends_on: clone_strings(&t.depends_on),
        block_reason: clone_opt(&t.block_reason),
        cancel_reason: clone_opt(&t.cancel_reason),
        children,
    }
}

impl Clone for Todo {
    fn clone(&self) -> (r: Self)
        ensures
            same_todo(r, *self),
    {
        clone_todo(self)
    }
}

impl Clone for TodoGraphNode {
    fn clone(&self) -> (r: Self)
        ensures
            same_node(r, *self),
    {
        clone_node(self)
    }
}

} // verus!
