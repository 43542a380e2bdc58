use sagent::connection::{
    connection_step, task_failure_message, ConnectionShutdown, ConnectionTask, NextStep,
    ShutdownAction, TaskEnd, Transport,
};

fn quiet(next: NextStep) -> ShutdownAction {
    ShutdownAction {
        cancel: false,
        abort_reader: false,
        abort_dispatcher: false,
        abort_writer: false,
        next,
    }
}

#[test]
fn stdio_end_of_input_drains_before_the_writer_closes() {
    let (state, action) = connection_step(
        Transport::Stdio,
        ConnectionShutdown::Running,
        ConnectionTask::Reader,
        TaskEnd::Succeeded,
    );
    assert_eq!(state, ConnectionShutdown::DrainingDispatcher);
    assert_eq!(action, quiet(NextStep::Await(ConnectionTask::Dispatcher)));

    let (state, action) = connection_step(
        Transport::Stdio,
        state,
        ConnectionTask::Dispatcher,
        TaskEnd::Succeeded,
    );
    assert_eq!(state, ConnectionShutdown::AwaitingWriter);
    assert_eq!(action, quiet(NextStep::Await(ConnectionTask::Writer)));

    let (state, action) =
        connection_step(Transport::Stdio, state, ConnectionTask::Writer, TaskEnd::Succeeded);
    assert_eq!(state, ConnectionShutdown::Done);
    assert_eq!(action, quiet(NextStep::Return(ConnectionTask::Writer)));
}

#[test]
fn stdio_dispatcher_failure_cancels_everything() {
    let (state, action) = connection_step(
        Transport::Stdio,
        ConnectionShutdown::Running,
        ConnectionTask::Dispatcher,
        TaskEnd::Failed,
    );
    assert_eq!(state, ConnectionShutdown::Done);
    assert_eq!(
        action,
        ShutdownAction {
            cancel: true,
            abort_reader: true,
            abort_dispatcher: false,
            abort_writer: true,
            next: NextStep::Return(ConnectionTask::Dispatcher),
        }
    );
}

#[test]
fn stdio_failure_while_draining_aborts_the_writer() {
    let (state, action) = connection_step(
        Transport::Stdio,
        ConnectionShutdown::DrainingDispatcher,
        ConnectionTask::Dispatcher,
        TaskEnd::Panicked,
    );
    assert_eq!(state, ConnectionShutdown::Done);
    assert_eq!(
        action,
        ShutdownAction {
            cancel: true,
            abort_reader: false,
            abort_dispatcher: false,
            abort_writer: true,
            next: NextStep::Return(ConnectionTask::Dispatcher),
        }
    );
}

#[test]
fn stdio_writer_failure_first_cancels_reader_and_dispatcher() {
    let (state, action) = connection_step(
        Transport::Stdio,
        ConnectionShutdown::Running,
        ConnectionTask::Writer,
        TaskEnd::Failed,
    );
    assert_eq!(state, ConnectionShutdown::Done);
    assert_eq!(
        action,
        ShutdownAction {
            cancel: true,
            abort_reader: true,
            abort_dispatcher: true,
            abort_writer: false,
            next: NextStep::Return(ConnectionTask::Writer),
        }
    );
}

#[test]
fn websocket_panicked_task_is_returned_at_once() {
    let (state, action) = connection_step(
        Transport::WebSocket,
        ConnectionShutdown::Running,
        ConnectionTask::Reader,
        TaskEnd::Panicked,
    );
    assert_eq!(state, ConnectionShutdown::Done);
    assert_eq!(action, quiet(NextStep::Return(ConnectionTask::Reader)));
}

#[test]
fn websocket_dispatcher_end_cancels_and_waits_for_the_writer() {
    let (state, action) = connection_step(
        Transport::WebSocket,
        ConnectionShutdown::Running,
        ConnectionTask::Dispatcher,
        TaskEnd::Succeeded,
    );
    assert_eq!(state, ConnectionShutdown::AwaitingWriter);
    assert_eq!(
        action,
        ShutdownAction {
            cancel: true,
            abort_reader: true,
            abort_dispatcher: false,
            abort_writer: false,
            next: NextStep::Await(ConnectionTask::Writer),
        }
    );
}

#[test]
fn task_failure_messages_name_the_task() {
    assert_eq!(
        task_failure_message(Transport::Stdio, ConnectionTask::Reader, "x"),
        "stdio task failed: x"
    );
    assert_eq!(
        task_failure_message(Transport::WebSocket, ConnectionTask::Writer, "x"),
        "WebSocket writer task failed: x"
    );
    assert_eq!(
        task_failure_message(Transport::WebSocket, ConnectionTask::Dispatcher, "boom"),
        "WebSocket dispatcher task failed: boom"
    );
}
