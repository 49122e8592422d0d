//! The resources that the gateway serves, as data bound to one pipeline.
use vstd::prelude::*;
use vstd::string::*;

verus! {

/// What binds the generic pipeline to one resource.
pub struct RouteDescriptor {
    /// The record type of one item.
    pub item_record: String,
    /// The upstream path, relative to the upstream base.
    pub upstream_path: String,
    /// The key under which the upstream wraps its list of items.
    pub envelope_key: String,
}

/// Binds a resource's record type, upstream path and envelope key.
pub fn generate_route(item_record: &str, upstream_path: &str, envelope_key: &str) -> (r: RouteDescriptor)
    ensures
        r.item_record@ == item_record@,
        r.upstream_path@ == upstream_path@,
        r.envelope_key@ == envelope_key@,
{
    RouteDescriptor {
        item_record: String::from_str(item_record),
        upstream_path: String::from_str(upstream_path),
        envelope_key: String::from_str(envelope_key),
    }
}

/// A route of the gateway: the path it is mounted at and its resource.
pub struct Route {
    pub mount: String,
    pub descriptor: RouteDescriptor,
}

pub open spec fn route_is(r: Route, mount: Seq<char>, item: Seq<char>, path: Seq<char>, key: Seq<char>) -> bool {
    &&& r.mount@ == mount
    &&& r.descriptor.item_record@ == item
    &&& r.descriptor.upstream_path@ == path
    &&& r.descriptor.envelope_key@ == key
}

fn route(mount: &str, item_record: &str, upstream_path: &str, envelope_key: &str) -> (r: Route)
    ensures
        route_is(r, mount@, item_record@, upstream_path@, envelope_key@),
{
    Route { mount: String::from_str(mount), descriptor: generate_route(item_record, upstream_path, envelope_key) }
}

/// The resources that the gateway serves.
pub fn resource_routes() -> (r: Vec<Route>)
    ensures
        r@.len() == 3,
        route_is(r@[0], "tasks"@, "Task"@, "tasks.json"@, "todo-items"@),
        route_is(r@[1], "time-entries"@, "TimeEntry"@, "time_entries.json"@, "time-entries"@),
        route_is(r@[2], "task-lists"@, "TaskList"@, "tasklists.json"@, "tasklists"@),
{
    let mut r = Vec::new();
    r.push(route("tasks", "Task", "tasks.json", "todo-items"));
    r.push(route("time-entries", "TimeEntry", "time_entries.json", "time-entries"));
    r.push(route("task-lists", "TaskList", "tasklists.json", "tasklists"));
    r
}

} // verus!
