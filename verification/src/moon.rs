//! What Moon is asked and what it answers: projects, tasks, command lines, and the bytes that
//! pass between a task and its terminal.

use vstd::prelude::*;
use vstd::string::StringExecFns;
use vstd::utf8::{encode_scalar, encode_utf8, valid_utf8};

use crate::text::{join, joined, texts};

verus! {

/// Message sent from task runners to the output view.
#[derive(Debug)]
pub enum OutputMsg {
    /// Append a new line to output (piped non-interactive tasks).
    Append(String),
    /// Raw PTY bytes, fed to the terminal emulator.
    PtyOutput(Vec<u8>),
}

/// What an `OutputMsg` holds.
pub ghost enum MsgView {
    Append(Seq<char>),
    PtyOutput(Seq<u8>),
}

impl View for OutputMsg {
    type V = MsgView;

    open spec fn view(&self) -> MsgView {
        match *self {
            OutputMsg::Append(line) => MsgView::Append(line@),
            OutputMsg::PtyOutput(bytes) => MsgView::PtyOutput(bytes@),
        }
    }
}

/// A project of the workspace.
#[derive(Debug, Clone)]
pub struct Project {
    pub id: String,
    pub tags: Vec<String>,
}

/// What a `Project` holds.
pub ghost struct ProjectView {
    pub id: Seq<char>,
    pub tags: Seq<Seq<char>>,
}

impl View for Project {
    type V = ProjectView;

    open spec fn view(&self) -> ProjectView {
        ProjectView { id: self.id@, tags: texts(self.tags@) }
    }
}

/// A task of a project.
#[derive(Debug, Clone)]
pub struct Task {
    pub id: String,
    pub command: String,
    pub args: Vec<String>,
    pub script: String,
    pub target: String,
    pub toolchains: Vec<String>,
    pub interactive: bool,
    pub task_type: String,
    pub deps: Vec<String>,
}

/// What a `Task` holds.
pub ghost struct TaskView {
    pub id: Seq<char>,
    pub command: Seq<char>,
    pub args: Seq<Seq<char>>,
    pub script: Seq<char>,
    pub target: Seq<char>,
    pub toolchains: Seq<Seq<char>>,
    pub interactive: bool,
    pub task_type: Seq<char>,
    pub deps: Seq<Seq<char>>,
}

impl View for Task {
    type V = TaskView;

    open spec fn view(&self) -> TaskView {
        TaskView {
            id: self.id@,
            command: self.command@,
            args: texts(self.args@),
            script: self.script@,
            target: self.target@,
            toolchains: texts(self.toolchains@),
            interactive: self.interactive,
            task_type: self.task_type@,
            deps: texts(self.deps@),
        }
    }
}

impl TaskView {
    /// The script where there is one, else the command and its arguments with a space between
    /// each two.
    pub open spec fn command_line(self) -> Seq<char> {
        if self.script.len() > 0 {
            self.script
        } else {
            joined(seq![self.command] + self.args, seq![' '])
        }
    }
}

impl Task {
    /// Full command string: script if present, otherwise command + args.
    pub fn full_command(&self) -> (line: String)
        ensures
            line@ == self@.command_line(),
    {
        if !self.script.as_str().is_empty() {
            return self.script.clone();
        }
        if self.args.len() == 0 {
            assert(seq![self@.command] + self@.args == seq![self@.command]);
            self.command.clone()
        } else {
            let mut line = self.command.clone();
            line.append(" ");
            line.append(join(&self.args, " ").as_str());
            proof {
                reveal_strlit(" ");
                assert(" "@ == seq![' ']);
                lemma_joined_first(self@.command, self@.args, seq![' ']);
            }
            line
        }
    }
}

proof fn lemma_joined_first(first: Seq<char>, rest: Seq<Seq<char>>, sep: Seq<char>)
    requires
        rest.len() > 0,
    ensures
        joined(seq![first] + rest, sep) == first + sep + joined(rest, sep),
    decreases rest.len(),
{
    let all = seq![first] + rest;
    assert(all.drop_last() == seq![first] + rest.drop_last());
    assert(all.last() == rest.last());
    if rest.len() == 1 {
        assert(all.drop_last() == seq![first]);
        assert(joined(seq![first], sep) == first);
        assert(joined(rest, sep) == rest.last());
    } else {
        lemma_joined_first(first, rest.drop_last(), sep);
        assert(first + sep + joined(rest.drop_last(), sep) + sep + rest.last() == first + sep + (
        joined(rest.drop_last(), sep) + sep + rest.last()));
    }
}

// Command lines.

/// The arguments that ask Moon for all projects.
pub open spec fn projects_query() -> Seq<Seq<char>> {
    seq!["query"@, "projects"@]
}

/// The arguments that ask Moon for the tasks of a project.
pub open spec fn tasks_query(project_id: Seq<char>) -> Seq<Seq<char>> {
    seq!["query"@, "tasks"@, "--project"@, project_id]
}

/// The arguments that have Moon run a task. `--force` has it skip its cache.
pub open spec fn run_command(target: Seq<char>, force: bool) -> Seq<Seq<char>> {
    let args = seq!["run"@, target, "--color"@];
    if force {
        args.push("--force"@)
    } else {
        args
    }
}

/// The arguments that ask Moon for all projects.
pub fn projects_query_args() -> (args: Vec<String>)
    ensures
        texts(args@) == projects_query(),
{
    let mut args: Vec<String> = Vec::new();
    args.push(String::from_str("query"));
    args.push(String::from_str("projects"));
    assert(texts(args@) == projects_query());
    args
}

/// The arguments that ask Moon for the tasks of a project.
pub fn tasks_query_args(project_id: &str) -> (args: Vec<String>)
    ensures
        texts(args@) == tasks_query(project_id@),
{
    let mut args: Vec<String> = Vec::new();
    args.push(String::from_str("query"));
    args.push(String::from_str("tasks"));
    args.push(String::from_str("--project"));
    args.push(String::from_str(project_id));
    assert(texts(args@) == tasks_query(project_id@));
    args
}

/// The arguments that have Moon run a task.
pub fn run_args(target: &str, force: bool) -> (args: Vec<String>)
    ensures
        texts(args@) == run_command(target@, force),
{
    let mut args: Vec<String> = Vec::new();
    args.push(String::from_str("run"));
    args.push(String::from_str(target));
    args.push(String::from_str("--color"));
    if force {
        args.push(String::from_str("--force"));
    }
    assert(texts(args@) == run_command(target@, force));
    args
}

// What Moon writes.

/// The error of `core::str::from_utf8`.
#[verifier::external_type_specification]
#[verifier::external_body]
pub struct ExUtf8Error(core::str::Utf8Error);

/// `core::str::from_utf8` takes the bytes as text where they are valid UTF-8, and fails where they
/// are not.
pub assume_specification[ core::str::from_utf8 ](bytes: &[u8]) -> (text: Result<
    &str,
    core::str::Utf8Error,
>)
    ensures
        text is Ok == valid_utf8(bytes@),
        text is Ok ==> encode_utf8(text->Ok_0@) == bytes@,
;

/// The place of the first byte `b`, where there is one.
pub open spec fn first_byte(bytes: Seq<u8>, b: u8) -> Option<int>
    decreases bytes.len(),
{
    if bytes.len() == 0 {
        None
    } else if bytes[0] == b {
        Some(0)
    } else {
        match first_byte(bytes.drop_first(), b) {
            Some(i) => Some(i + 1),
            None => None,
        }
    }
}

/// The JSON in what Moon wrote: from the first brace on, where it is text at all.
pub open spec fn json_part(bytes: Seq<u8>) -> Option<Seq<u8>> {
    if valid_utf8(bytes) {
        match first_byte(bytes, 0x7b) {
            Some(i) => Some(bytes.skip(i)),
            None => None,
        }
    } else {
        None
    }
}

/// Extract JSON from Moon's stdout, which may contain sync/summary text before the actual JSON
/// object.
pub fn extract_json(bytes: &[u8]) -> (json: Option<&[u8]>)
    ensures
        json is Some == json_part(bytes@) is Some,
        json is Some ==> json->0@ == json_part(bytes@)->0,
{
    if core::str::from_utf8(bytes).is_err() {
        return None;
    }
    let mut i: usize = 0;
    assert(bytes@.skip(0) == bytes@);
    while i < bytes.len()
        invariant
            i <= bytes.len(),
            valid_utf8(bytes@),
            first_byte(bytes@, 0x7b) == (match first_byte(bytes@.skip(i as int), 0x7b) {
                Some(k) => Some(k + i),
                None => None,
            }),
        decreases bytes.len() - i,
    {
        assert(bytes@.skip(i as int).drop_first() == bytes@.skip(i + 1));
        if bytes[i] == 0x7b {
            let json = vstd::slice::slice_subrange(bytes, i, bytes.len());
            assert(json@ == bytes@.skip(i as int));
            return Some(json);
        }
        i += 1;
    }
    None
}

/// The answer to a query for projects.
#[derive(Debug)]
pub struct ProjectsResponse {
    pub projects: Vec<ProjectJson>,
}

#[derive(Debug)]
pub struct ProjectJson {
    pub id: String,
    pub config: ProjectConfig,
}

#[derive(Debug)]
pub struct ProjectConfig {
    pub tags: Option<Vec<String>>,
}

/// The answer to a query for tasks: for each project its tasks, both in the order of their keys.
#[derive(Debug)]
pub struct TasksResponse {
    pub tasks: Vec<(String, Vec<(String, TaskJson)>)>,
}

#[derive(Debug)]
pub struct TaskJson {
    pub id: String,
    pub command: Option<String>,
    pub args: Option<Vec<String>>,
    pub script: Option<String>,
    pub target: Option<String>,
    pub toolchains: Option<Vec<String>>,
    pub options: Option<TaskOptionsJson>,
    pub deps: Option<Vec<DepJson>>,
    pub task_type: Option<String>,
}

#[derive(Debug)]
pub struct TaskOptionsJson {
    pub interactive: Option<bool>,
}

#[derive(Debug)]
pub struct DepJson {
    pub target: Option<String>,
}

/// The text, or nothing.
pub open spec fn text_or_empty(text: Option<String>) -> Seq<char> {
    match text {
        Some(t) => t@,
        None => seq![],
    }
}

/// The texts, or none.
pub open spec fn texts_or_empty(list: Option<Vec<String>>) -> Seq<Seq<char>> {
    match list {
        Some(l) => texts(l@),
        None => seq![],
    }
}

/// The project that an answer tells of.
pub open spec fn project_from(json: ProjectJson) -> ProjectView {
    ProjectView { id: json.id@, tags: texts_or_empty(json.config.tags) }
}

/// The targets of the dependencies that have one.
pub open spec fn dep_targets(deps: Seq<DepJson>) -> Seq<Seq<char>>
    decreases deps.len(),
{
    if deps.len() == 0 {
        seq![]
    } else {
        match deps.last().target {
            Some(t) => dep_targets(deps.drop_last()).push(t@),
            None => dep_targets(deps.drop_last()),
        }
    }
}

/// The task that an answer tells of.
pub open spec fn task_from(json: TaskJson) -> TaskView {
    TaskView {
        id: json.id@,
        command: text_or_empty(json.command),
        args: texts_or_empty(json.args),
        script: text_or_empty(json.script),
        target: text_or_empty(json.target),
        toolchains: texts_or_empty(json.toolchains),
        interactive: json.options is Some && json.options->0.interactive == Some(true),
        task_type: text_or_empty(json.task_type),
        deps: match json.deps {
            Some(deps) => dep_targets(deps@),
            None => seq![],
        },
    }
}

/// The tasks of one project in an answer.
pub open spec fn tasks_of_project(tasks: Seq<(String, TaskJson)>) -> Seq<TaskView> {
    tasks.map_values(|t: (String, TaskJson)| task_from(t.1))
}

/// All tasks in an answer, project by project.
pub open spec fn tasks_of_all(
    projects: Seq<(String, Vec<(String, TaskJson)>)>,
) -> Seq<TaskView>
    decreases projects.len(),
{
    if projects.len() == 0 {
        seq![]
    } else {
        tasks_of_all(projects.drop_last()) + tasks_of_project(projects.last().1@)
    }
}

/// What the projects hold.
pub open spec fn project_views(projects: Seq<Project>) -> Seq<ProjectView> {
    projects.map_values(|p: Project| p@)
}

/// What the tasks hold.
pub open spec fn task_views(tasks: Seq<Task>) -> Seq<TaskView> {
    tasks.map_values(|t: Task| t@)
}

fn string_or_empty(text: Option<String>) -> (s: String)
    ensures
        s@ == text_or_empty(text),
{
    match text {
        Some(t) => t,
        None => {
            let s = String::new();
            assert(s@ == Seq::<char>::empty());
            s
        },
    }
}

fn list_or_empty(list: Option<Vec<String>>) -> (l: Vec<String>)
    ensures
        texts(l@) == texts_or_empty(list),
{
    match list {
        Some(l) => l,
        None => {
            let l: Vec<String> = Vec::new();
            assert(texts(l@) == Seq::<Seq<char>>::empty());
            l
        },
    }
}

/// The projects in an answer; none where there is none.
pub open spec fn projects_in(response: Option<ProjectsResponse>) -> Seq<ProjectView> {
    match response {
        Some(r) => r.projects@.map_values(|p: ProjectJson| project_from(p)),
        None => seq![],
    }
}

/// The tasks in an answer; none where there is none.
pub open spec fn tasks_in(response: Option<TasksResponse>) -> Seq<TaskView> {
    match response {
        Some(r) => tasks_of_all(r.tasks@),
        None => seq![],
    }
}

/// The projects that Moon's answer tells of; none where there is no answer that can be read.
pub fn query_projects(response: Option<ProjectsResponse>) -> (projects: Vec<Project>)
    ensures
        project_views(projects@) == projects_in(response),
        project_views(projects@) == (match response {
            Some(r) => r.projects@.map_values(|p: ProjectJson| project_from(p)),
            None => seq![],
        }),
{
    let mut projects: Vec<Project> = Vec::new();
    let response = match response {
        Some(r) => r,
        None => {
            assert(project_views(projects@) == Seq::<ProjectView>::empty());
            return projects;
        },
    };
    let ghost all = response.projects@.map_values(|p: ProjectJson| project_from(p));
    for p in iter: response.projects
        invariant
            iter.seq() == response.projects@,
            all == response.projects@.map_values(|p: ProjectJson| project_from(p)),
            project_views(projects@) == all.take(iter.index()),
    {
        let ghost n = iter.index();
        let ghost before = projects@;
        let ghost json = p;
        let project = Project { id: p.id, tags: list_or_empty(p.config.tags) };
        let ghost view = project@;
        projects.push(project);
        proof {
            assert(view == project_from(json));
            assert(project_views(projects@) == project_views(before).push(view));
            assert(all.take(n + 1) == all.take(n).push(all[n]));
        }
    }
    assert(all.take(all.len() as int) == all);
    projects
}

fn targets_of(deps: Option<Vec<DepJson>>) -> (targets: Vec<String>)
    ensures
        texts(targets@) == (match deps {
            Some(deps) => dep_targets(deps@),
            None => seq![],
        }),
{
    let mut targets: Vec<String> = Vec::new();
    assert(texts(targets@) == Seq::<Seq<char>>::empty());
    if let Some(deps) = deps {
        let ghost all = deps@;
        assert(all.take(0) == Seq::<DepJson>::empty());
        for d in iter: deps
            invariant
                iter.seq() == all,
                texts(targets@) == dep_targets(all.take(iter.index())),
        {
            let ghost n = iter.index();
            let ghost before = targets@;
            assert(all.take(n + 1).drop_last() == all.take(n));
            assert(all.take(n + 1).last() == d);
            if let Some(target) = d.target {
                let ghost text = target@;
                targets.push(target);
                assert(texts(targets@) == texts(before).push(text));
            }
        }
        assert(all.take(all.len() as int) == all);
    }
    targets
}

fn task_of(json: TaskJson) -> (task: Task)
    ensures
        task@ == task_from(json),
{
    let interactive = match json.options {
        Some(options) => match options.interactive {
            Some(interactive) => interactive,
            None => false,
        },
        None => false,
    };
    let task = Task {
        id: json.id,
        command: string_or_empty(json.command),
        args: list_or_empty(json.args),
        script: string_or_empty(json.script),
        target: string_or_empty(json.target),
        toolchains: list_or_empty(json.toolchains),
        interactive,
        task_type: string_or_empty(json.task_type),
        deps: targets_of(json.deps),
    };
    task
}

fn add_tasks(tasks: &mut Vec<Task>, json: Vec<(String, TaskJson)>)
    ensures
        task_views(final(tasks)@) == task_views(old(tasks)@) + tasks_of_project(json@),
{
    let ghost start = task_views(tasks@);
    let ghost all = tasks_of_project(json@);
    assert(start + all.take(0) == start);
    for t in iter: json
        invariant
            iter.seq() == json@,
            all == tasks_of_project(json@),
            task_views(tasks@) == start + all.take(iter.index()),
    {
        let ghost n = iter.index();
        let ghost before = tasks@;
        let (_, one) = t;
        let task = task_of(one);
        let ghost view = task@;
        tasks.push(task);
        proof {
            assert(view == all[n]);
            assert(task_views(tasks@) == task_views(before).push(view));
            assert(all.take(n + 1) == all.take(n).push(all[n]));
            assert(start + all.take(n + 1) == (start + all.take(n)).push(all[n]));
        }
    }
    assert(all.take(all.len() as int) == all);
}

/// The tasks that Moon's answer tells of; none where there is no answer that can be read.
pub fn query_tasks(response: Option<TasksResponse>) -> (tasks: Vec<Task>)
    ensures
        task_views(tasks@) == tasks_in(response),
        task_views(tasks@) == (match response {
            Some(r) => tasks_of_all(r.tasks@),
            None => seq![],
        }),
{
    let mut tasks: Vec<Task> = Vec::new();
    assert(task_views(tasks@) == Seq::<TaskView>::empty());
    let response = match response {
        Some(r) => r,
        None => {
            return tasks;
        },
    };
    let ghost all = response.tasks@;
    assert(all.take(0) == Seq::<(String, Vec<(String, TaskJson)>)>::empty());
    for p in iter: response.tasks
        invariant
            iter.seq() == all,
            all == response.tasks@,
            task_views(tasks@) == tasks_of_all(all.take(iter.index())),
    {
        let ghost n = iter.index();
        assert(all.take(n + 1).drop_last() == all.take(n));
        assert(all.take(n + 1).last() == p);
        let (_, of_project) = p;
        add_tasks(&mut tasks, of_project);
    }
    assert(all.take(all.len() as int) == all);
    tasks
}

// What a terminal is asked.

/// Whether `bytes` begin with `start`.
pub open spec fn begins_with(bytes: Seq<u8>, start: Seq<u8>) -> bool {
    bytes.len() >= start.len() && bytes.take(start.len() as int) == start
}

/// The reply to the query that begins with ESC, a bracket and then `rest`: where the cursor is
/// (`6n`), whether the terminal works (`5n`), what it is (`c` or `0c`).
pub open spec fn reply_to(rest: Seq<u8>) -> Option<Seq<u8>> {
    if begins_with(rest, seq![0x36, 0x6e]) {
        Some(seq![0x1b, 0x5b, 0x31, 0x3b, 0x31, 0x52])
    } else if begins_with(rest, seq![0x35, 0x6e]) {
        Some(seq![0x1b, 0x5b, 0x30, 0x6e])
    } else if begins_with(rest, seq![0x63]) || begins_with(rest, seq![0x30, 0x63]) {
        Some(seq![0x1b, 0x5b, 0x3f, 0x36, 0x32, 0x3b, 0x32, 0x32, 0x63])
    } else {
        None
    }
}

/// The replies to the queries in `bytes`, in their order.
pub open spec fn replies_in(bytes: Seq<u8>) -> Seq<Seq<u8>>
    decreases bytes.len(),
{
    if bytes.len() < 2 {
        seq![]
    } else if bytes[0] == 0x1b && bytes[1] == 0x5b {
        let rest = bytes.skip(2);
        (match reply_to(rest) {
            Some(reply) => seq![reply],
            None => seq![],
        }) + replies_in(rest)
    } else {
        replies_in(bytes.skip(1))
    }
}

/// The replies to a chunk of output: none where it is not valid text.
pub open spec fn device_replies(data: Seq<u8>) -> Seq<Seq<u8>> {
    if valid_utf8(data) {
        replies_in(data)
    } else {
        seq![]
    }
}

/// What the byte strings hold.
pub open spec fn byte_views(v: Seq<Vec<u8>>) -> Seq<Seq<u8>> {
    v.map_values(|b: Vec<u8>| b@)
}

/// The reply to the query at `at`.
fn reply_at(data: &[u8], at: usize) -> (reply: Option<Vec<u8>>)
    requires
        at <= data.len(),
    ensures
        reply is Some == reply_to(data@.skip(at as int)) is Some,
        reply is Some ==> reply->0@ == reply_to(data@.skip(at as int))->0,
{
    let ghost rest = data@.skip(at as int);
    let left: usize = data.len() - at;
    proof {
        if left >= 1 {
            assert(rest.take(1) == seq![data@[at as int]]);
            assert(rest.take(1)[0] == data@[at as int]);
            assert(seq![0x63u8][0] == 0x63);
        }
        if left >= 2 {
            assert(rest.take(2) == seq![data@[at as int], data@[at + 1]]);
            assert(rest.take(2)[0] == data@[at as int]);
            assert(rest.take(2)[1] == data@[at + 1]);
            assert(seq![0x36u8, 0x6eu8][0] == 0x36 && seq![0x36u8, 0x6eu8][1] == 0x6e);
            assert(seq![0x35u8, 0x6eu8][0] == 0x35 && seq![0x35u8, 0x6eu8][1] == 0x6e);
            assert(seq![0x30u8, 0x63u8][0] == 0x30 && seq![0x30u8, 0x63u8][1] == 0x63);
        }
    }
    if left >= 2 && data[at] == 0x36 && data[at + 1] == 0x6e {
        let reply: Vec<u8> = vec![0x1b, 0x5b, 0x31, 0x3b, 0x31, 0x52];
        assert(reply@ == reply_to(rest)->0);
        Some(reply)
    } else if left >= 2 && data[at] == 0x35 && data[at + 1] == 0x6e {
        let reply: Vec<u8> = vec![0x1b, 0x5b, 0x30, 0x6e];
        assert(reply@ == reply_to(rest)->0);
        Some(reply)
    } else if (left >= 1 && data[at] == 0x63) || (left >= 2 && data[at] == 0x30 && data[at + 1]
        == 0x63) {
        let reply: Vec<u8> = vec![0x1b, 0x5b, 0x3f, 0x36, 0x32, 0x3b, 0x32, 0x32, 0x63];
        assert(reply@ == reply_to(rest)->0);
        Some(reply)
    } else {
        None
    }
}

/// Scan a chunk of PTY output for terminal device queries. Gives the responses that are to be
/// written back for the child to read.
///
/// Without them, programs that ask a terminal for its cursor position would wait forever.
pub fn respond_to_device_queries(data: &[u8]) -> (replies: Vec<Vec<u8>>)
    ensures
        byte_views(replies@) == device_replies(data@),
{
    let mut replies: Vec<Vec<u8>> = Vec::new();
    assert(byte_views(replies@) == Seq::<Seq<u8>>::empty());
    if core::str::from_utf8(data).is_err() {
        return replies;
    }
    let mut i: usize = 0;
    assert(data@.skip(0) == data@);
    assert(byte_views(replies@) + replies_in(data@) == replies_in(data@));
    while data.len() - i >= 2
        invariant
            i <= data.len(),
            byte_views(replies@) + replies_in(data@.skip(i as int)) == replies_in(data@),
        decreases data.len() - i,
    {
        let ghost here = data@.skip(i as int);
        let ghost before = byte_views(replies@);
        if data[i] == 0x1b && data[i + 1] == 0x5b {
            assert(here.skip(2) == data@.skip(i + 2));
            let ghost rest = replies_in(here.skip(2));
            match reply_at(data, i + 2) {
                Some(reply) => {
                    let ghost text = reply@;
                    replies.push(reply);
                    assert(byte_views(replies@) == before.push(text));
                    assert(before + (seq![text] + rest) == before.push(text) + rest);
                },
                None => {
                    assert(Seq::<Seq<u8>>::empty() + rest == rest);
                },
            }
            i += 2;
        } else {
            assert(here.skip(1) == data@.skip(i + 1));
            i += 1;
        }
    }
    assert(byte_views(replies@) + Seq::<Seq<u8>>::empty() == byte_views(replies@));
    replies
}

// Laws.

proof fn lemma_first_byte(bytes: Seq<u8>, b: u8)
    ensures
        first_byte(bytes, b) matches Some(i) ==> 0 <= i < bytes.len() && bytes[i] == b && forall|
            k: int,
        |
            0 <= k < i ==> #[trigger] bytes[k] != b,
        first_byte(bytes, b) is None ==> !bytes.contains(b),
    decreases bytes.len(),
{
    if bytes.len() > 0 && bytes[0] != b {
        let rest = bytes.drop_first();
        lemma_first_byte(rest, b);
        match first_byte(rest, b) {
            Some(i) => {
                assert forall|k: int| 0 <= k < i + 1 implies #[trigger] bytes[k] != b by {
                    if k > 0 {
                        assert(bytes[k] == rest[k - 1]);
                    }
                }
            },
            None => {
                assert forall|k: int| 0 <= k < bytes.len() implies bytes[k] != b by {
                    if k > 0 {
                        assert(bytes[k] == rest[k - 1]);
                        assert(rest.contains(rest[k - 1]));
                    }
                }
            },
        }
    }
}

/// What is taken as JSON begins with a brace, runs to the end of what Moon wrote, and leaves out
/// no brace before it.
pub proof fn law_json_begins_with_brace(bytes: Seq<u8>)
    ensures
        json_part(bytes) matches Some(json) ==> {
            let start = bytes.len() - json.len();
            &&& 0 < json.len() <= bytes.len()
            &&& json[0] == 0x7b
            &&& json == bytes.skip(start)
            &&& !bytes.take(start).contains(0x7b)
        },
{
    lemma_first_byte(bytes, 0x7b);
}

proof fn lemma_scalar_bytes(c: char, b: u8)
    requires
        b < 0x80,
        c as u32 != b,
    ensures
        !encode_scalar(c as u32).contains(b),
{
    let v = c as u32;
    if v <= 0x7f {
        assert((v & 0x7F) as u8 == v) by (bit_vector)
            requires
                v <= 0x7fu32,
        ;
    }
    assert(0xC0u8 | ((v >> 6) & 0x1F) as u8 >= 0x80) by (bit_vector);
    assert(0xE0u8 | ((v >> 12) & 0x0F) as u8 >= 0x80) by (bit_vector);
    assert(0xF0u8 | ((v >> 18) & 0x7) as u8 >= 0x80) by (bit_vector);
    assert(0x80u8 | (v & 0x3F) as u8 >= 0x80) by (bit_vector);
    assert(0x80u8 | ((v >> 6) & 0x3F) as u8 >= 0x80) by (bit_vector);
    assert(0x80u8 | ((v >> 12) & 0x3F) as u8 >= 0x80) by (bit_vector);
}

proof fn lemma_first_byte_after(prefix: Seq<u8>, rest: Seq<u8>, b: u8)
    requires
        !prefix.contains(b),
        rest.len() > 0,
        rest[0] == b,
    ensures
        first_byte(prefix + rest, b) == Some(prefix.len() as int),
    decreases prefix.len(),
{
    let all = prefix + rest;
    if prefix.len() > 0 {
        assert(prefix.contains(prefix[0]));
        let shorter = prefix.drop_first();
        assert forall|k: int| 0 <= k < shorter.len() implies shorter[k] != b by {
            assert(prefix.contains(prefix[k + 1]));
        }
        lemma_first_byte_after(shorter, rest, b);
        assert(all.drop_first() == shorter + rest);
    }
}

proof fn lemma_encode_concat(a: Seq<char>, b: Seq<char>)
    ensures
        encode_utf8(a + b) == encode_utf8(a) + encode_utf8(b),
    decreases a.len(),
{
    if a.len() == 0 {
        assert(a + b == b);
        assert(Seq::<u8>::empty() + encode_utf8(b) == encode_utf8(b));
    } else {
        lemma_encode_concat(a.drop_first(), b);
        assert((a + b).drop_first() == a.drop_first() + b);
        assert(encode_utf8(a + b) == encode_utf8(a) + encode_utf8(b));
    }
}

proof fn lemma_encode_without(a: Seq<char>, b: u8)
    requires
        b < 0x80,
        forall|i: int| 0 <= i < a.len() ==> #[trigger] a[i] as u32 != b,
    ensures
        !encode_utf8(a).contains(b),
    decreases a.len(),
{
    if a.len() > 0 {
        let rest = a.drop_first();
        assert forall|i: int| 0 <= i < rest.len() implies #[trigger] rest[i] as u32 != b by {
            assert(a[i + 1] as u32 != b);
        }
        lemma_encode_without(rest, b);
        lemma_scalar_bytes(a[0], b);
        let first = encode_scalar(a[0] as u32);
        let all = first + encode_utf8(rest);
        assert forall|k: int| 0 <= k < all.len() implies all[k] != b by {
            if k < first.len() {
                assert(first.contains(first[k]));
            } else {
                assert(encode_utf8(rest).contains(encode_utf8(rest)[k - first.len()]));
            }
        }
    }
}

/// Text before the JSON, as long as no brace is in it, is left out, and the JSON is all that is
/// left.
pub proof fn law_text_before_json_is_skipped(text: Seq<char>, json: Seq<char>)
    requires
        !text.contains('{'),
        json.len() > 0,
        json[0] == '{',
    ensures
        json_part(encode_utf8(text + json)) == Some(encode_utf8(json)),
{
    let a = encode_utf8(text);
    let b = encode_utf8(json);
    vstd::utf8::encode_utf8_valid_utf8(text + json);
    lemma_encode_concat(text, json);
    assert forall|i: int| 0 <= i < text.len() implies #[trigger] text[i] as u32 != 0x7bu8 by {
        assert(text.contains(text[i]));
        if text[i] as u32 == 0x7b {
            vstd::utf8::char_u32_cast(text[i], 0x7b);
            vstd::utf8::char_u32_cast('{', 0x7b);
        }
    }
    lemma_encode_without(text, 0x7b);
    let v = json[0] as u32;
    assert((v & 0x7F) as u8 == v) by (bit_vector)
        requires
            v <= 0x7fu32,
    ;
    assert(b[0] == 0x7b);
    lemma_first_byte_after(a, b, 0x7b);
    assert((a + b).skip(a.len() as int) == b);
}

/// Output without the escape character gets no reply.
pub proof fn law_no_escape_no_reply(data: Seq<u8>)
    requires
        !data.contains(0x1b),
    ensures
        device_replies(data) == Seq::<Seq<u8>>::empty(),
        replies_in(data) == Seq::<Seq<u8>>::empty(),
    decreases data.len(),
{
    if data.len() >= 2 {
        assert(data.contains(data[0]));
        let rest = data.skip(1);
        assert forall|k: int| 0 <= k < rest.len() implies rest[k] != 0x1b by {
            assert(data.contains(data[k + 1]));
        }
        law_no_escape_no_reply(rest);
    }
}

/// A script is the command line as it stands. Without one the command line is the command, and
/// each argument adds itself after a space.
pub proof fn law_command_line(task: TaskView, arg: Seq<char>)
    ensures
        task.script.len() > 0 ==> task.command_line() == task.script,
        task.script.len() == 0 && task.args.len() == 0 ==> task.command_line() == task.command,
        task.script.len() == 0 ==> (TaskView { args: task.args.push(arg), ..task }).command_line()
            == task.command_line() + seq![' '] + arg,
{
    let all = seq![task.command] + task.args;
    if task.args.len() == 0 {
        assert(all == seq![task.command]);
    }
    let more = seq![task.command] + task.args.push(arg);
    assert(more.drop_last() == all);
    assert(more.last() == arg);
}

/// Moon is asked for projects with two words, and for the tasks of a project with its id at the
/// end.
pub proof fn law_queries(project_id: Seq<char>)
    ensures
        projects_query().len() == 2,
        projects_query()[0] == "query"@,
        projects_query()[1] == "projects"@,
        tasks_query(project_id).len() == 4,
        tasks_query(project_id)[0] == "query"@,
        tasks_query(project_id)[1] == "tasks"@,
        tasks_query(project_id)[2] == "--project"@,
        tasks_query(project_id)[3] == project_id,
{
}

/// A task is run in colors, and the one difference that `force` makes is the argument `--force`
/// at the end.
pub proof fn law_run_command(target: Seq<char>)
    ensures
        run_command(target, false).len() == 3,
        run_command(target, false)[0] == "run"@,
        run_command(target, false)[1] == target,
        run_command(target, false)[2] == "--color"@,
        run_command(target, true) == run_command(target, false) + seq!["--force"@],
{
    assert(run_command(target, true) == run_command(target, false) + seq!["--force"@]);
}

/// A project has the id that the answer gives it, and its tags, in their order; none where the
/// answer gives none.
pub proof fn law_project_is_taken_over(json: ProjectJson)
    ensures
        project_from(json).id == json.id@,
        json.config.tags is None ==> project_from(json).tags.len() == 0,
        json.config.tags matches Some(tags) ==> {
            &&& project_from(json).tags.len() == tags.len()
            &&& forall|i: int|
                0 <= i < tags.len() ==> #[trigger] project_from(json).tags[i] == tags@[i]@
        },
{
}

/// Whether `found` is what the answer gives, or empty where it gives nothing.
pub open spec fn taken_over(found: Seq<char>, given: Option<String>) -> bool {
    match given {
        Some(text) => found == text@,
        None => found.len() == 0,
    }
}

/// Whether `found` are the texts that the answer gives, in their order, or none where it gives
/// nothing.
pub open spec fn all_taken_over(found: Seq<Seq<char>>, given: Option<Vec<String>>) -> bool {
    match given {
        Some(list) => found.len() == list.len() && forall|i: int|
            0 <= i < found.len() ==> #[trigger] found[i] == list@[i]@,
        None => found.len() == 0,
    }
}

/// A task has what the answer gives it, each part in its place, and nothing where the answer gives
/// nothing.
pub proof fn law_task_is_taken_over(json: TaskJson)
    ensures
        task_from(json).id == json.id@,
        taken_over(task_from(json).command, json.command),
        taken_over(task_from(json).script, json.script),
        taken_over(task_from(json).target, json.target),
        taken_over(task_from(json).task_type, json.task_type),
        all_taken_over(task_from(json).args, json.args),
        all_taken_over(task_from(json).toolchains, json.toolchains),
{
}

/// A task is interactive exactly where the answer says so: not where it says no, and not where it
/// says nothing.
pub proof fn law_interactive_only_where_told(json: TaskJson)
    ensures
        task_from(json).interactive <==> (json.options matches Some(options)
            && options.interactive == Some(true)),
        json.options is None ==> !task_from(json).interactive,
        json.options matches Some(options) ==> {
            &&& options.interactive == Some(false) ==> !task_from(json).interactive
            &&& options.interactive is None ==> !task_from(json).interactive
            &&& options.interactive == Some(true) ==> task_from(json).interactive
        },
{
}

/// The dependencies of a task are the targets that the answer names, in their order; those without
/// a target are left out, and no answer means none.
pub proof fn law_dependencies(json: TaskJson, deps: Seq<DepJson>, dep: DepJson)
    ensures
        json.deps is None ==> task_from(json).deps.len() == 0,
        json.deps matches Some(list) ==> task_from(json).deps == dep_targets(list@),
        dep_targets(Seq::<DepJson>::empty()).len() == 0,
        dep.target matches Some(target) ==> dep_targets(deps.push(dep)) == dep_targets(deps) + seq![
            target@,
        ],
        dep.target is None ==> dep_targets(deps.push(dep)) == dep_targets(deps),
{
    assert(deps.push(dep).drop_last() == deps);
    if dep.target is Some {
        assert(dep_targets(deps.push(dep)) == dep_targets(deps) + seq![dep.target->0@]);
    }
}

/// Every task of every project in an answer is listed once, projects and tasks in their order.
pub proof fn law_all_tasks_are_listed(
    projects: Seq<(String, Vec<(String, TaskJson)>)>,
    project: (String, Vec<(String, TaskJson)>),
)
    ensures
        tasks_of_all(Seq::<(String, Vec<(String, TaskJson)>)>::empty()).len() == 0,
        ({
            let before = tasks_of_all(projects);
            let after = tasks_of_all(projects.push(project));
            &&& after.len() == before.len() + project.1.len()
            &&& forall|i: int| 0 <= i < before.len() ==> #[trigger] after[i] == before[i]
            &&& forall|i: int|
                0 <= i < project.1.len() ==> after[before.len() + i] == task_from(
                    (#[trigger] project.1@[i]).1,
                )
        }),
{
    assert(projects.push(project).drop_last() == projects);
}

/// A query is answered in its place, and the search goes on after it: where the cursor is asked
/// for, with row and column 1; whether the terminal works, with yes; what it is, with its kind.
pub proof fn law_queries_are_answered(rest: Seq<u8>)
    ensures
        replies_in(seq![0x1bu8, 0x5b, 0x36, 0x6e] + rest) == seq![
            seq![0x1bu8, 0x5b, 0x31, 0x3b, 0x31, 0x52],
        ] + replies_in(rest),
        replies_in(seq![0x1bu8, 0x5b, 0x35, 0x6e] + rest) == seq![seq![0x1bu8, 0x5b, 0x30, 0x6e]]
            + replies_in(rest),
        replies_in(seq![0x1bu8, 0x5b, 0x63] + rest) == seq![
            seq![0x1bu8, 0x5b, 0x3f, 0x36, 0x32, 0x3b, 0x32, 0x32, 0x63],
        ] + replies_in(rest),
        replies_in(seq![0x1bu8, 0x5b, 0x30, 0x63] + rest) == seq![
            seq![0x1bu8, 0x5b, 0x3f, 0x36, 0x32, 0x3b, 0x32, 0x32, 0x63],
        ] + replies_in(rest),
{
    lemma_query(0x36, 0x6e, rest);
    lemma_query(0x35, 0x6e, rest);
    lemma_query(0x30, 0x63, rest);
    let all = seq![0x1bu8, 0x5b, 0x63] + rest;
    let tail = seq![0x63u8] + rest;
    assert(all.skip(2) == tail);
    assert(all[0] == 0x1b && all[1] == 0x5b);
    assert(tail.take(1) == seq![0x63u8]);
    assert(tail[0] == 0x63);
    if tail.len() >= 2 {
        assert(tail.take(2)[0] == 0x63);
        assert(seq![0x36u8, 0x6e][0] == 0x36 && seq![0x35u8, 0x6e][0] == 0x35);
    }
    lemma_skip_plain(0x63, rest);
}

proof fn lemma_query(a: u8, b: u8, rest: Seq<u8>)
    requires
        a == 0x36 && b == 0x6e || a == 0x35 && b == 0x6e || a == 0x30 && b == 0x63,
    ensures
        ({
            let all = seq![0x1bu8, 0x5b, a, b] + rest;
            let tail = seq![a, b] + rest;
            replies_in(all) == seq![reply_to(tail)->0] + replies_in(rest) && reply_to(tail) is Some
        }),
        a == 0x36 ==> reply_to(seq![a, b] + rest) == Some(
            seq![0x1bu8, 0x5b, 0x31, 0x3b, 0x31, 0x52],
        ),
        a == 0x35 ==> reply_to(seq![a, b] + rest) == Some(seq![0x1bu8, 0x5b, 0x30, 0x6e]),
        a == 0x30 ==> reply_to(seq![a, b] + rest) == Some(
            seq![0x1bu8, 0x5b, 0x3f, 0x36, 0x32, 0x3b, 0x32, 0x32, 0x63],
        ),
{
    let all = seq![0x1bu8, 0x5b, a, b] + rest;
    let tail = seq![a, b] + rest;
    assert(all.skip(2) == tail);
    assert(all[0] == 0x1b && all[1] == 0x5b);
    assert(tail.take(2) == seq![a, b]);
    assert(tail.take(2)[0] == a && tail.take(2)[1] == b);
    assert(tail.take(1)[0] == a);
    assert(seq![0x36u8, 0x6e][0] == 0x36 && seq![0x35u8, 0x6e][0] == 0x35);
    assert(seq![0x63u8][0] == 0x63);
    assert(tail == seq![a] + (seq![b] + rest));
    lemma_skip_plain(a, seq![b] + rest);
    lemma_skip_plain(b, rest);
}

proof fn lemma_skip_plain(b: u8, rest: Seq<u8>)
    requires
        b != 0x1b,
    ensures
        replies_in(seq![b] + rest) == replies_in(rest),
{
    let all = seq![b] + rest;
    assert(all[0] == b);
    assert(all.skip(1) == rest);
    if rest.len() == 0 {
        assert(replies_in(rest) == Seq::<Seq<u8>>::empty());
    }
}

/// Nothing else is answered: any other byte is passed over, and so is a control sequence that is
/// no query.
pub proof fn law_other_output_is_not_answered(b: u8, rest: Seq<u8>)
    ensures
        b != 0x1b ==> replies_in(seq![b] + rest) == replies_in(rest),
        b != 0x5b ==> replies_in(seq![0x1bu8, b] + rest) == replies_in(seq![b] + rest),
        b != 0x35 && b != 0x36 && b != 0x30 && b != 0x63 ==> replies_in(
            seq![0x1bu8, 0x5b, b] + rest,
        ) == replies_in(seq![b] + rest),
        (b == 0x35 || b == 0x36) && (rest.len() == 0 || rest[0] != 0x6e) ==> replies_in(
            seq![0x1bu8, 0x5b, b] + rest,
        ) == replies_in(rest),
        b == 0x30 && (rest.len() == 0 || rest[0] != 0x63) ==> replies_in(
            seq![0x1bu8, 0x5b, b] + rest,
        ) == replies_in(rest),
{
    if b != 0x1b {
        lemma_skip_plain(b, rest);
    }
    let two = seq![0x1bu8, b] + rest;
    assert(two[0] == 0x1b && two[1] == b);
    assert(two.skip(1) == seq![b] + rest);
    let three = seq![0x1bu8, 0x5b, b] + rest;
    let tail = seq![b] + rest;
    assert(three[0] == 0x1b && three[1] == 0x5b);
    assert(three.skip(2) == tail);
    assert(tail[0] == b);
    assert(tail.take(1)[0] == b);
    if rest.len() > 0 {
        assert(tail.take(2)[0] == b && tail.take(2)[1] == rest[0]);
    }
    assert(seq![0x36u8, 0x6e][0] == 0x36 && seq![0x36u8, 0x6e][1] == 0x6e);
    assert(seq![0x35u8, 0x6e][0] == 0x35 && seq![0x35u8, 0x6e][1] == 0x6e);
    assert(seq![0x30u8, 0x63][0] == 0x30 && seq![0x30u8, 0x63][1] == 0x63);
    assert(seq![0x63u8][0] == 0x63);
    assert(Seq::<Seq<u8>>::empty() + replies_in(tail) == replies_in(tail));
}

/// A chunk is answered as a whole where it is text, and not at all where it is not.
pub proof fn law_only_text_is_answered(data: Seq<u8>)
    ensures
        valid_utf8(data) ==> device_replies(data) == replies_in(data),
        !valid_utf8(data) ==> device_replies(data).len() == 0,
{
}

/// Where Moon wrote text with a brace in it, something is taken as JSON, and nothing is where it
/// wrote none or no text.
pub proof fn law_json_is_found(bytes: Seq<u8>)
    ensures
        json_part(bytes) is Some <==> valid_utf8(bytes) && bytes.contains(0x7b),
{
    if valid_utf8(bytes) {
        lemma_brace_found(bytes);
    }
}

proof fn lemma_brace_found(bytes: Seq<u8>)
    ensures
        first_byte(bytes, 0x7b) is Some <==> bytes.contains(0x7b),
    decreases bytes.len(),
{
    if bytes.len() > 0 {
        let rest = bytes.drop_first();
        lemma_brace_found(rest);
        if bytes[0] != 0x7b {
            if bytes.contains(0x7b) {
                let i = choose|i: int| 0 <= i < bytes.len() && bytes[i] == 0x7b;
                assert(rest[i - 1] == 0x7b);
            }
            if rest.contains(0x7b) {
                let i = choose|i: int| 0 <= i < rest.len() && rest[i] == 0x7b;
                assert(bytes[i + 1] == 0x7b);
            }
        }
    }
}

/// Every project in an answer is listed once, in its order; and without an answer nothing is
/// listed.
pub proof fn law_answers_are_listed(
    projects: ProjectsResponse,
    tasks: TasksResponse,
    i: int,
)
    ensures
        projects_in(None).len() == 0,
        tasks_in(None).len() == 0,
        projects_in(Some(projects)).len() == projects.projects.len(),
        0 <= i < projects.projects.len() ==> projects_in(Some(projects))[i] == project_from(
            projects.projects@[i],
        ),
        tasks_in(Some(tasks)) == tasks_of_all(tasks.tasks@),
{
}

} // verus!
