//! The HTTP interface's answers: the status each endpoint gives when it
//! succeeds and when the database refuses the request.
use vstd::prelude::*;

verus! {

/// The endpoints of the API, under `/api`.
#[derive(Debug, Clone, Copy, PartialEq, Eq, Structural)]
pub enum Endpoint {
    /// `GET /health`
    Health,
    /// `GET /home`
    Home,
    /// `GET /tasks`
    ListTasks,
    /// `POST /tasks`
    CreateTask,
    /// `GET /tasks/{id}`
    GetTask,
    /// `PATCH /tasks/{id}`
    UpdateTask,
    /// `DELETE /tasks/{id}`
    DeleteTask,
    /// `GET /tasks/{id}/subtree`
    Subtree,
    /// `GET /tasks/{id}/ancestors`
    Ancestors,
    /// `POST /tasks/{id}/defer`
    Defer,
    /// `POST /tasks/{id}/snooze`
    Snooze,
    /// `POST /tasks/{id}/touch`
    Touch,
    /// `POST /tasks/{id}/ack`
    Acknowledge,
    /// `POST /tasks/{id}/focus`
    Focus,
    /// `GET /review`
    Review,
    /// `GET /focus`
    Focused,
    /// `GET /search`
    Search,
    /// `POST /samples`
    CreateSample,
    /// `GET /samples`
    ListSamples,
}

/// The status of a successful answer: 201 for a creation, 204 for a
/// deletion, 200 otherwise.
pub fn success_status(e: Endpoint) -> (r: u16)
    ensures
        (e == Endpoint::CreateTask || e == Endpoint::CreateSample) ==> r == 201,
        e == Endpoint::DeleteTask ==> r == 204,
        !(e == Endpoint::CreateTask || e == Endpoint::CreateSample || e == Endpoint::DeleteTask) ==> r == 200,
{
    match e {
        Endpoint::CreateTask | Endpoint::CreateSample => 201,
        Endpoint::DeleteTask => 204,
        _ => 200,
    }
}

/// The status of a refused request: 404 when the task to show does not
/// exist, 400 when a focus toggle is refused, 500 otherwise.
pub fn failure_status(e: Endpoint) -> (r: u16)
    ensures
        e == Endpoint::GetTask ==> r == 404,
        e == Endpoint::Focus ==> r == 400,
        e != Endpoint::GetTask && e != Endpoint::Focus ==> r == 500,
{
    match e {
        Endpoint::GetTask => 404,
        Endpoint::Focus => 400,
        _ => 500,
    }
}

} // verus!
