//! What a controller says of itself when it is asked how it is.

use crate::controller::{count_in, protocol_features, tasks_in_state};
use crate::json::{json_views, text_or_null, Json, JsonView};
use crate::launch::{texts, texts_json};
use crate::schema::{ControllerPeer, Executor, ExecutorEndpoint, HealthStatus, Lease, Task, TaskState};
use crate::snapshot::{health, health_view};
use crate::state::Controller;
use crate::task::{opt_text, task_views};
use crate::text::views;
use vstd::prelude::*;

verus! {

/// How a node is reached, as a document.
pub open spec fn endpoint_view(e: ExecutorEndpoint) -> JsonView {
    match e {
        ExecutorEndpoint::Local { socket } => JsonView::obj().plus("socket"@, JsonView::Text(socket@)).plus(
            "transport"@,
            JsonView::Text("local"@),
        ),
        ExecutorEndpoint::Ssh { host, socket, control_path } => JsonView::obj().plus(
            "control_path"@,
            text_or_null(opt_text(control_path)),
        ).plus("host"@, JsonView::Text(host@)).plus("socket"@, JsonView::Text(socket@)).plus(
            "transport"@,
            JsonView::Text("ssh"@),
        ),
        ExecutorEndpoint::Command { executable, args, cwd } => JsonView::obj().plus("args"@, texts(views(args@))).plus(
            "cwd"@,
            text_or_null(opt_text(cwd)),
        ).plus("executable"@, JsonView::Text(executable@)).plus("transport"@, JsonView::Text("command"@)),
    }
}

/// How a node is reached, as a document.
pub fn endpoint_json(e: &ExecutorEndpoint) -> (r: Json)
    ensures
        r@ == endpoint_view(*e),
{
    match e {
        ExecutorEndpoint::Local { socket } => Json::obj().plus("socket", Json::text(socket.as_str())).plus(
            "transport",
            Json::text("local"),
        ),
        ExecutorEndpoint::Ssh { host, socket, control_path } => Json::obj().plus(
            "control_path",
            Json::opt_text(control_path),
        ).plus("host", Json::text(host.as_str())).plus("socket", Json::text(socket.as_str())).plus(
            "transport",
            Json::text("ssh"),
        ),
        ExecutorEndpoint::Command { executable, args, cwd } => Json::obj().plus("args", texts_json(args)).plus(
            "cwd",
            Json::opt_text(cwd),
        ).plus("executable", Json::text(executable.as_str())).plus("transport", Json::text("command")),
    }
}

/// The features of a controller, as a document.
pub open spec fn features_view() -> JsonView {
    JsonView::Array(
        seq![
            JsonView::Text("capability-authority-v2"@),
            JsonView::Text("driver-draining-v1"@),
            JsonView::Text("read-grant-v1"@),
            JsonView::Text("acceptance-handoff-v1"@),
        ],
    )
}

/// What a controller says of its own.
pub open spec fn own_view(id: Seq<char>) -> JsonView {
    JsonView::obj().plus("id"@, JsonView::Text(id)).plus("protocolFeatures"@, features_view()).plus(
        "status"@,
        JsonView::Text("ready"@),
    )
}

fn own(id: &str) -> (r: Json)
    ensures
        r@ == own_view(id@),
{
    let f = protocol_features();
    let mut features: Vec<Json> = Vec::new();
    features.push(Json::text(f[0]));
    features.push(Json::text(f[1]));
    features.push(Json::text(f[2]));
    features.push(Json::text(f[3]));
    assert(json_views(features@) =~= features_view()->Array_0);
    Json::obj().plus("id", Json::text(id)).plus("protocolFeatures", Json::array(features)).plus(
        "status",
        Json::text("ready"),
    )
}

/// How many tasks there are in each state that there is one in, `rest` being those of the states
/// that come before by name.
pub open spec fn counted(rest: JsonView, name: Seq<char>, tasks: Seq<Task>, state: TaskState) -> JsonView {
    let n = count_in(tasks, state, tasks.len() as int);
    if n > 0 {
        rest.plus(name, JsonView::Unsigned(n as u64))
    } else {
        rest
    }
}

/// How many tasks there are in each state that there is one in.
pub open spec fn by_state_view(tasks: Seq<Task>) -> JsonView {
    let a = counted(JsonView::obj(), "cancelled"@, tasks, TaskState::Cancelled);
    let b = counted(a, "cancelling"@, tasks, TaskState::Cancelling);
    let c = counted(b, "cancelrequested"@, tasks, TaskState::CancelRequested);
    let d = counted(c, "failed"@, tasks, TaskState::Failed);
    let e = counted(d, "failedtocancel"@, tasks, TaskState::FailedToCancel);
    let f = counted(e, "outcomeunknown"@, tasks, TaskState::OutcomeUnknown);
    let g = counted(f, "queued"@, tasks, TaskState::Queued);
    let h = counted(g, "running"@, tasks, TaskState::Running);
    let i = counted(h, "succeeded"@, tasks, TaskState::Succeeded);
    counted(i, "timedout"@, tasks, TaskState::TimedOut)
}

fn count(rest: Json, name: &str, tasks: &Vec<Task>, state: TaskState) -> (r: Json)
    ensures
        r@ == counted(rest@, name@, tasks@, state),
{
    let n = tasks_in_state(tasks, state);
    if n > 0 {
        rest.plus(name, Json::Unsigned(n))
    } else {
        rest
    }
}

/// How many tasks there are in each state that there is one in.
pub fn tasks_by_state(tasks: &Vec<Task>) -> (r: Json)
    ensures
        r@ == by_state_view(tasks@),
{
    let a = count(Json::obj(), "cancelled", tasks, TaskState::Cancelled);
    let b = count(a, "cancelling", tasks, TaskState::Cancelling);
    let c = count(b, "cancelrequested", tasks, TaskState::CancelRequested);
    let d = count(c, "failed", tasks, TaskState::Failed);
    let e = count(d, "failedtocancel", tasks, TaskState::FailedToCancel);
    let f = count(e, "outcomeunknown", tasks, TaskState::OutcomeUnknown);
    let g = count(f, "queued", tasks, TaskState::Queued);
    let h = count(g, "running", tasks, TaskState::Running);
    let i = count(h, "succeeded", tasks, TaskState::Succeeded);
    count(i, "timedout", tasks, TaskState::TimedOut)
}

/// What is told of a controller that is known, in the health that a look at it found.
pub open spec fn controller_row(c: ControllerPeer, h: HealthStatus) -> JsonView {
    JsonView::obj().plus("endpoint"@, endpoint_view(c.endpoint)).plus("health"@, JsonView::Text(health_view(h))).plus(
        "id"@,
        JsonView::Text(c.metadata.id@),
    )
}

/// What is told of an executor that is known, in the health that a look at it found.
pub open spec fn executor_row(e: Executor, h: HealthStatus) -> JsonView {
    JsonView::obj().plus("capabilityCount"@, JsonView::Unsigned(e.capabilities@.len() as u64)).plus(
        "endpoint"@,
        endpoint_view(e.endpoint),
    ).plus("health"@, JsonView::Text(health_view(h))).plus("id"@, JsonView::Text(e.metadata.id@))
}

/// What is told of the controllers.
pub open spec fn controller_rows(items: Seq<ControllerPeer>, healths: Seq<HealthStatus>) -> Seq<JsonView> {
    Seq::new(items.len(), |i: int| controller_row(items[i], healths[i]))
}

/// What is told of the executors.
pub open spec fn executor_rows(items: Seq<Executor>, healths: Seq<HealthStatus>) -> Seq<JsonView> {
    Seq::new(items.len(), |i: int| executor_row(items[i], healths[i]))
}

/// Controllers in the health that a look at them found.
pub open spec fn controllers_in(items: Seq<ControllerPeer>, healths: Seq<HealthStatus>) -> Seq<ControllerPeer> {
    Seq::new(items.len(), |i: int| (ControllerPeer { health: healths[i], ..items[i] }))
}

/// Executors in the health that a look at them found.
pub open spec fn executors_in(items: Seq<Executor>, healths: Seq<HealthStatus>) -> Seq<Executor> {
    Seq::new(items.len(), |i: int| (Executor { health: healths[i], ..items[i] }))
}

/// Puts the health that a look at the nodes found in their records.
pub fn refresh_health(
    controllers: &mut Vec<ControllerPeer>,
    executors: &mut Vec<Executor>,
    controller_healths: &Vec<HealthStatus>,
    executor_healths: &Vec<HealthStatus>,
)
    requires
        controller_healths@.len() == old(controllers)@.len(),
        executor_healths@.len() == old(executors)@.len(),
    ensures
        final(controllers)@ == controllers_in(old(controllers)@, controller_healths@),
        final(executors)@ == executors_in(old(executors)@, executor_healths@),
{
    let ghost peers = controllers@;
    let ghost nodes = executors@;
    let n = controllers.len();
    let mut i: usize = 0;
    while i < n
        invariant
            i <= n,
            n == peers.len(),
            controllers@.len() == n,
            controller_healths@.len() == n,
            forall|k: int|
                0 <= k < i ==> #[trigger] controllers@[k] == (ControllerPeer {
                    health: controller_healths@[k],
                    ..peers[k]
                }),
            forall|k: int| i <= k < n ==> #[trigger] controllers@[k] == peers[k],
        decreases n - i,
    {
        controllers[i].health = controller_healths[i];
        i += 1;
    }
    let m = executors.len();
    let mut j: usize = 0;
    while j < m
        invariant
            j <= m,
            m == nodes.len(),
            executors@.len() == m,
            executor_healths@.len() == m,
            forall|k: int|
                0 <= k < j ==> #[trigger] executors@[k] == (Executor { health: executor_healths@[k], ..nodes[k] }),
            forall|k: int| j <= k < m ==> #[trigger] executors@[k] == nodes[k],
        decreases m - j,
    {
        executors[j].health = executor_healths[j];
        j += 1;
    }
    assert(controllers@ =~= controllers_in(peers, controller_healths@));
    assert(executors@ =~= executors_in(nodes, executor_healths@));
}

/// What a controller tells when it is asked how it is.
#[derive(Debug)]
pub enum Status {
    /// How much there is of everything.
    Bounded(Json),
    /// The records themselves.
    Verbose { controllers: Vec<ControllerPeer>, executors: Vec<Executor>, leases: Vec<Lease>, tasks: Vec<Task> },
}

/// What a controller tells unless it is asked for the records themselves: of its leases and tasks
/// only how many there are.
pub open spec fn bounded_view(c: Controller, controllers: Seq<HealthStatus>, executors: Seq<HealthStatus>) -> JsonView {
    JsonView::obj().plus("controller"@, own_view(c.id@)).plus(
        "controllers"@,
        JsonView::Array(controller_rows(c.state.controllers@, controllers)),
    ).plus("executors"@, JsonView::Array(executor_rows(c.state.executors@, executors))).plus(
        "leases"@,
        JsonView::obj().plus("count"@, JsonView::Unsigned(c.leases.leases@.len() as u64)),
    ).plus(
        "tasks"@,
        JsonView::obj().plus("byState"@, by_state_view(c.tasks.tasks@)).plus(
            "count"@,
            JsonView::Unsigned(c.tasks.tasks@.len() as u64),
        ),
    )
}

impl Controller {
    /// What a controller answers when it is asked how it is: the records themselves where the
    /// request asks for them, and else how much there is. `known` and `nodes` are copies of its
    /// controllers and executors, and the healths are those that a look at them found.
    pub fn answer_status(
        &self,
        params: &Json,
        known: Vec<ControllerPeer>,
        nodes: Vec<Executor>,
        controller_healths: &Vec<HealthStatus>,
        executor_healths: &Vec<HealthStatus>,
    ) -> (r: Status)
        requires
            known@.len() == self.state.controllers@.len(),
            nodes@.len() == self.state.executors@.len(),
            controller_healths@.len() == known@.len(),
            executor_healths@.len() == nodes@.len(),
        ensures
            if params@.get_bool("verbose"@) == Some(true) {
                r matches Status::Verbose { controllers, executors, leases, tasks } && controllers@ == controllers_in(
                    known@,
                    controller_healths@,
                ) && executors@ == executors_in(nodes@, executor_healths@) && leases@ == self.leases@.leases
                    && task_views(tasks@) == task_views(self.tasks.tasks@)
            } else {
                r matches Status::Bounded(j) && j@ == bounded_view(*self, controller_healths@, executor_healths@)
            },
    {
        if !params.is_true("verbose") {
            return Status::Bounded(self.status(controller_healths, executor_healths));
        }
        let mut controllers = known;
        let mut executors = nodes;
        refresh_health(&mut controllers, &mut executors, controller_healths, executor_healths);
        Status::Verbose { controllers, executors, leases: self.leases.snapshot(), tasks: self.tasks.snapshot() }
    }

    /// The records that a controller tells of itself, each list as a document.
    pub fn verbose_status(&self, controllers: Json, executors: Json, leases: Json, tasks: Json) -> (r: Json)
        ensures
            r@ == JsonView::obj().plus("controller"@, own_view(self.id@)).plus("controllers"@, controllers@).plus(
                "executors"@,
                executors@,
            ).plus("leases"@, leases@).plus("tasks"@, tasks@),
    {
        self.ping().plus("controllers", controllers).plus("executors", executors).plus("leases", leases).plus(
            "tasks",
            tasks,
        )
    }

    /// What a controller answers when it is asked whether it is there.
    pub fn ping(&self) -> (r: Json)
        ensures
            r@ == JsonView::obj().plus("controller"@, own_view(self.id@)),
    {
        Json::obj().plus("controller", own(self.id.as_str()))
    }

    /// What a controller answers when it is asked how it is: of its leases and tasks it tells how
    /// many there are, and not what they hold. The healths are those that a look at the nodes
    /// found.
    pub fn status(&self, controllers: &Vec<HealthStatus>, executors: &Vec<HealthStatus>) -> (r: Json)
        requires
            controllers@.len() == self.state.controllers@.len(),
            executors@.len() == self.state.executors@.len(),
        ensures
            r@ == bounded_view(*self, controllers@, executors@),
    {
        let mut c: Vec<Json> = Vec::new();
        let mut i: usize = 0;
        while i < self.state.controllers.len()
            invariant
                i <= self.state.controllers@.len(),
                controllers@.len() == self.state.controllers@.len(),
                c@.len() == i,
                forall|k: int|
                    0 <= k < i ==> (#[trigger] c@[k])@ == controller_row(self.state.controllers@[k], controllers@[k]),
            decreases self.state.controllers@.len() - i,
        {
            let p = &self.state.controllers[i];
            c.push(
                Json::obj().plus("endpoint", endpoint_json(&p.endpoint)).plus(
                    "health",
                    Json::text(health(controllers[i])),
                ).plus("id", Json::text(p.metadata.id.as_str())),
            );
            i += 1;
        }
        assert(json_views(c@) =~= controller_rows(self.state.controllers@, controllers@));
        let mut e: Vec<Json> = Vec::new();
        let mut i: usize = 0;
        while i < self.state.executors.len()
            invariant
                i <= self.state.executors@.len(),
                executors@.len() == self.state.executors@.len(),
                e@.len() == i,
                forall|k: int|
                    0 <= k < i ==> (#[trigger] e@[k])@ == executor_row(self.state.executors@[k], executors@[k]),
            decreases self.state.executors@.len() - i,
        {
            let p = &self.state.executors[i];
            e.push(
                Json::obj().plus("capabilityCount", Json::Unsigned(p.capabilities.len() as u64)).plus(
                    "endpoint",
                    endpoint_json(&p.endpoint),
                ).plus("health", Json::text(health(executors[i]))).plus("id", Json::text(p.metadata.id.as_str())),
            );
            i += 1;
        }
        assert(json_views(e@) =~= executor_rows(self.state.executors@, executors@));
        let leases = Json::obj().plus("count", Json::Unsigned(self.leases.leases.len() as u64));
        let tasks = Json::obj().plus("byState", tasks_by_state(&self.tasks.tasks)).plus(
            "count",
            Json::Unsigned(self.tasks.tasks.len() as u64),
        );
        Json::obj().plus("controller", own(self.id.as_str())).plus("controllers", Json::array(c)).plus(
            "executors",
            Json::array(e),
        ).plus("leases", leases).plus("tasks", tasks)
    }
}

} // verus!
