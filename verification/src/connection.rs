//! How a JSON-RPC connection shuts down.
//!
//! A connection runs three tasks: the reader, which turns incoming frames into requests; the
//! dispatcher, which answers them; and the writer, the only one that writes frames out. The
//! caller waits for whichever task ends first, reports how it ended, and is told what to do:
//! whether to cancel the connection, which tasks to abort, and whether to wait for another task
//! or to return the result of the one that ended. On standard input and output, the end of
//! input lets the dispatcher answer every request read and the writer write every answer before
//! the connection closes; any failure cancels the whole connection.

use vstd::prelude::*;

verus! {

/// The transport a connection runs on.
#[derive(Debug, Clone, Copy, PartialEq, Eq, Structural)]
pub enum Transport {
    /// Newline-delimited frames on standard input and output.
    Stdio,
    /// Text messages of a WebSocket.
    WebSocket,
}

/// One of the connection's tasks.
#[derive(Debug, Clone, Copy, PartialEq, Eq, Structural)]
pub enum ConnectionTask {
    Reader,
    Dispatcher,
    Writer,
}

/// How a task ended.
#[derive(Debug, Clone, Copy, PartialEq, Eq, Structural)]
pub enum TaskEnd {
    /// It returned `Ok`.
    Succeeded,
    /// It returned an I/O error.
    Failed,
    /// It panicked or was aborted, so that joining it failed.
    Panicked,
}

/// Which task the connection waits for.
#[derive(Debug, Clone, Copy, PartialEq, Eq, Structural)]
pub enum ConnectionShutdown {
    /// All three tasks run; the first to end is taken.
    Running,
    /// The reader ended well; the dispatcher is answering what was read.
    DrainingDispatcher,
    /// The dispatcher ended well; the reader's end is awaited.
    AwaitingReader,
    /// Only the writer's end is awaited.
    AwaitingWriter,
    /// The connection's result is known.
    Done,
}

/// What the caller waits for next, or returns.
#[derive(Debug, Clone, Copy, PartialEq, Eq, Structural)]
pub enum NextStep {
    /// Wait for the named task to end, then report how it ended.
    Await(ConnectionTask),
    /// Return the result of the named task, the one that just ended.
    Return(ConnectionTask),
}

/// What the caller does after a task ended.
#[derive(Debug, Clone, Copy, PartialEq, Eq, Structural)]
pub struct ShutdownAction {
    /// Cancel the connection's cancellation token.
    pub cancel: bool,
    pub abort_reader: bool,
    pub abort_dispatcher: bool,
    pub abort_writer: bool,
    pub next: NextStep,
}

/// The action with the given cancellation, aborts and next step.
pub open spec fn action(
    cancel: bool,
    abort_reader: bool,
    abort_dispatcher: bool,
    abort_writer: bool,
    next: NextStep,
) -> ShutdownAction {
    ShutdownAction { cancel, abort_reader, abort_dispatcher, abort_writer, next }
}

/// Whether, in `state`, the caller waits for `task`.
pub open spec fn awaits(state: ConnectionShutdown, task: ConnectionTask) -> bool {
    match state {
        ConnectionShutdown::Running => true,
        ConnectionShutdown::DrainingDispatcher => task == ConnectionTask::Dispatcher,
        ConnectionShutdown::AwaitingReader => task == ConnectionTask::Reader,
        ConnectionShutdown::AwaitingWriter => task == ConnectionTask::Writer,
        ConnectionShutdown::Done => false,
    }
}

/// Whether `task` still runs in `state`, other than the one that just ended.
pub open spec fn still_running(
    transport: Transport,
    state: ConnectionShutdown,
    ended: ConnectionTask,
    task: ConnectionTask,
) -> bool {
    task != ended && match state {
        ConnectionShutdown::Running => true,
        ConnectionShutdown::DrainingDispatcher => task != ConnectionTask::Reader,
        ConnectionShutdown::AwaitingReader => task != ConnectionTask::Dispatcher,
        _ => false,
    }
}

/// The shutdown of a stdio connection: a task that fails cancels the connection and aborts
/// every task that still runs; a reader that ends well lets the dispatcher drain, and then the
/// writer; the writer's own end is the connection's result.
pub open spec fn stdio_step(state: ConnectionShutdown, ended: ConnectionTask, end: TaskEnd) -> (
    ConnectionShutdown,
    ShutdownAction,
) {
    let failed = end != TaskEnd::Succeeded;
    let back = NextStep::Return(ended);
    match (state, ended) {
        (ConnectionShutdown::Running, ConnectionTask::Writer) => (
            ConnectionShutdown::Done,
            action(failed, failed, failed, false, back),
        ),
        (ConnectionShutdown::Running, ConnectionTask::Reader) => if failed {
            (ConnectionShutdown::Done, action(true, false, true, true, back))
        } else {
            (
                ConnectionShutdown::DrainingDispatcher,
                action(false, false, false, false, NextStep::Await(ConnectionTask::Dispatcher)),
            )
        },
        (ConnectionShutdown::Running, ConnectionTask::Dispatcher) => if failed {
            (ConnectionShutdown::Done, action(true, true, false, true, back))
        } else {
            (
                ConnectionShutdown::AwaitingReader,
                action(false, false, false, false, NextStep::Await(ConnectionTask::Reader)),
            )
        },
        (ConnectionShutdown::DrainingDispatcher, _) | (ConnectionShutdown::AwaitingReader, _) =>
            if failed {
            (ConnectionShutdown::Done, action(true, false, false, true, back))
        } else {
            (
                ConnectionShutdown::AwaitingWriter,
                action(false, false, false, false, NextStep::Await(ConnectionTask::Writer)),
            )
        },
        _ => (ConnectionShutdown::Done, action(false, false, false, false, back)),
    }
}

/// The shutdown of a WebSocket connection: a task whose join failed is returned at once; the
/// writer's end, or the dispatcher's, cancels the connection and aborts the reader; a reader
/// that ends well lets the dispatcher drain; a failure aborts every task that still runs.
pub open spec fn websocket_step(state: ConnectionShutdown, ended: ConnectionTask, end: TaskEnd) -> (
    ConnectionShutdown,
    ShutdownAction,
) {
    let back = NextStep::Return(ended);
    if end == TaskEnd::Panicked {
        (ConnectionShutdown::Done, action(false, false, false, false, back))
    } else {
        let failed = end == TaskEnd::Failed;
        match (state, ended) {
            (ConnectionShutdown::Running, ConnectionTask::Writer) => (
                ConnectionShutdown::Done,
                action(true, true, true, false, back),
            ),
            (ConnectionShutdown::Running, ConnectionTask::Reader) => if failed {
                (ConnectionShutdown::Done, action(true, false, true, true, back))
            } else {
                (
                    ConnectionShutdown::DrainingDispatcher,
                    action(false, false, false, false, NextStep::Await(ConnectionTask::Dispatcher)),
                )
            },
            (ConnectionShutdown::Running, ConnectionTask::Dispatcher) => if failed {
                (ConnectionShutdown::Done, action(true, true, false, true, back))
            } else {
                (
                    ConnectionShutdown::AwaitingWriter,
                    action(true, true, false, false, NextStep::Await(ConnectionTask::Writer)),
                )
            },
            (ConnectionShutdown::DrainingDispatcher, _) => if failed {
                (ConnectionShutdown::Done, action(true, false, false, true, back))
            } else {
                (
                    ConnectionShutdown::AwaitingWriter,
                    action(true, false, false, false, NextStep::Await(ConnectionTask::Writer)),
                )
            },
            _ => (ConnectionShutdown::Done, action(false, false, false, false, back)),
        }
    }
}

/// The shutdown step of a connection on `transport`.
pub open spec fn connection_step_spec(
    transport: Transport,
    state: ConnectionShutdown,
    ended: ConnectionTask,
    end: TaskEnd,
) -> (ConnectionShutdown, ShutdownAction) {
    match transport {
        Transport::Stdio => stdio_step(state, ended, end),
        Transport::WebSocket => websocket_step(state, ended, end),
    }
}

/// Decides what follows after task `ended` of a connection on `transport` ended as `end`, in
/// state `state`: the new state and the action.
pub fn connection_step(
    transport: Transport,
    state: ConnectionShutdown,
    ended: ConnectionTask,
    end: TaskEnd,
) -> (r: (ConnectionShutdown, ShutdownAction))
    requires
        awaits(state, ended),
        transport == Transport::WebSocket ==> state != ConnectionShutdown::AwaitingReader,
    ensures
        r == connection_step_spec(transport, state, ended, end),
{
    let back = NextStep::Return(ended);
    let quiet = ShutdownAction {
        cancel: false,
        abort_reader: false,
        abort_dispatcher: false,
        abort_writer: false,
        next: back,
    };
    match transport {
        Transport::Stdio => {
            let failed = end != TaskEnd::Succeeded;
            match state {
                ConnectionShutdown::Running => match ended {
                    ConnectionTask::Writer => (
                        ConnectionShutdown::Done,
                        ShutdownAction {
                            cancel: failed,
                            abort_reader: failed,
                            abort_dispatcher: failed,
                            abort_writer: false,
                            next: back,
                        },
                    ),
                    ConnectionTask::Reader => if failed {
                        (
                            ConnectionShutdown::Done,
                            ShutdownAction {
                                cancel: true,
                                abort_reader: false,
                                abort_dispatcher: true,
                                abort_writer: true,
                                next: back,
                            },
                        )
                    } else {
                        (
                            ConnectionShutdown::DrainingDispatcher,
                            ShutdownAction {
                                next: NextStep::Await(ConnectionTask::Dispatcher),
                                ..quiet
                            },
                        )
                    },
                    ConnectionTask::Dispatcher => if failed {
                        (
                            ConnectionShutdown::Done,
                            ShutdownAction {
                                cancel: true,
                                abort_reader: true,
                                abort_dispatcher: false,
                                abort_writer: true,
                                next: back,
                            },
                        )
                    } else {
                        (
                            ConnectionShutdown::AwaitingReader,
                            ShutdownAction {
                                next: NextStep::Await(ConnectionTask::Reader),
                                ..quiet
                            },
                        )
                    },
                },
                ConnectionShutdown::DrainingDispatcher | ConnectionShutdown::AwaitingReader => {
                    if failed {
                        (
                            ConnectionShutdown::Done,
                            ShutdownAction { cancel: true, abort_writer: true, ..quiet },
                        )
                    } else {
                        (
                            ConnectionShutdown::AwaitingWriter,
                            ShutdownAction {
                                next: NextStep::Await(ConnectionTask::Writer),
                                ..quiet
                            },
                        )
                    }
                },
                _ => (ConnectionShutdown::Done, quiet),
            }
        },
        Transport::WebSocket => {
            if end == TaskEnd::Panicked {
                return (ConnectionShutdown::Done, quiet);
            }
            let failed = end == TaskEnd::Failed;
            match state {
                ConnectionShutdown::Running => match ended {
                    ConnectionTask::Writer => (
                        ConnectionShutdown::Done,
                        ShutdownAction {
                            cancel: true,
                            abort_reader: true,
                            abort_dispatcher: true,
                            abort_writer: false,
                            next: back,
                        },
                    ),
                    ConnectionTask::Reader => if failed {
                        (
                            ConnectionShutdown::Done,
                            ShutdownAction {
                                cancel: true,
                                abort_reader: false,
                                abort_dispatcher: true,
                                abort_writer: true,
                                next: back,
                            },
                        )
                    } else {
                        (
                            ConnectionShutdown::DrainingDispatcher,
                            ShutdownAction {
                                next: NextStep::Await(ConnectionTask::Dispatcher),
                                ..quiet
                            },
                        )
                    },
                    ConnectionTask::Dispatcher => if failed {
                        (
                            ConnectionShutdown::Done,
                            ShutdownAction {
                                cancel: true,
                                abort_reader: true,
                                abort_dispatcher: false,
                                abort_writer: true,
                                next: back,
                            },
                        )
                    } else {
                        (
                            ConnectionShutdown::AwaitingWriter,
                            ShutdownAction {
                                cancel: true,
                                abort_reader: true,
                                abort_dispatcher: false,
                                abort_writer: false,
                                next: NextStep::Await(ConnectionTask::Writer),
                            },
                        )
                    },
                },
                ConnectionShutdown::DrainingDispatcher => if failed {
                    (
                        ConnectionShutdown::Done,
                        ShutdownAction { cancel: true, abort_writer: true, ..quiet },
                    )
                } else {
                    (
                        ConnectionShutdown::AwaitingWriter,
                        ShutdownAction {
                            cancel: true,
                            next: NextStep::Await(ConnectionTask::Writer),
                            ..quiet
                        },
                    )
                },
                _ => (ConnectionShutdown::Done, quiet),
            }
        },
    }
}

/// On standard input and output, the end of input drains the connection: when the reader ends
/// well, nothing is cancelled or aborted and the dispatcher is awaited; when the dispatcher
/// then ends well, nothing is cancelled or aborted and the writer is awaited; the writer's end,
/// however it ends, is the connection's result.
pub proof fn law_end_of_input_drains_before_the_writer_closes(
    dispatcher_end: TaskEnd,
    writer_end: TaskEnd,
)
    ensures
        ({
            let (s1, a1) = stdio_step(
                ConnectionShutdown::Running,
                ConnectionTask::Reader,
                TaskEnd::Succeeded,
            );
            let (s2, a2) = stdio_step(s1, ConnectionTask::Dispatcher, TaskEnd::Succeeded);
            let (s3, a3) = stdio_step(s2, ConnectionTask::Writer, writer_end);
            &&& a1 == action(false, false, false, false, NextStep::Await(ConnectionTask::Dispatcher))
            &&& a2 == action(false, false, false, false, NextStep::Await(ConnectionTask::Writer))
            &&& s3 == ConnectionShutdown::Done
            &&& a3.next == NextStep::Return(ConnectionTask::Writer)
            &&& !a3.cancel && !a3.abort_reader && !a3.abort_dispatcher && !a3.abort_writer
        }),
{
}

/// A task of a stdio connection that fails, or whose join fails, ends the connection with its
/// own result, and cancels the connection and aborts every other task that still runs.
pub proof fn law_any_failure_cancels_the_connection(
    state: ConnectionShutdown,
    ended: ConnectionTask,
    end: TaskEnd,
)
    requires
        awaits(state, ended),
        end != TaskEnd::Succeeded,
    ensures
        ({
            let (next, a) = stdio_step(state, ended, end);
            let t = Transport::Stdio;
            &&& next == ConnectionShutdown::Done
            &&& a.next == NextStep::Return(ended)
            &&& a.abort_reader == still_running(t, state, ended, ConnectionTask::Reader)
            &&& a.abort_dispatcher == still_running(t, state, ended, ConnectionTask::Dispatcher)
            &&& a.abort_writer == still_running(t, state, ended, ConnectionTask::Writer)
            &&& a.cancel == (still_running(t, state, ended, ConnectionTask::Reader)
                || still_running(t, state, ended, ConnectionTask::Dispatcher)
                || still_running(t, state, ended, ConnectionTask::Writer))
        }),
{
}

/// A task of a WebSocket connection that fails ends the connection with its own result, and
/// cancels the connection and aborts every other task that still runs.
pub proof fn law_websocket_failure_cancels_the_connection(
    state: ConnectionShutdown,
    ended: ConnectionTask,
)
    requires
        awaits(state, ended),
        state != ConnectionShutdown::AwaitingReader,
        state != ConnectionShutdown::AwaitingWriter,
    ensures
        ({
            let (next, a) = websocket_step(state, ended, TaskEnd::Failed);
            let t = Transport::WebSocket;
            &&& next == ConnectionShutdown::Done
            &&& a.next == NextStep::Return(ended)
            &&& a.cancel
            &&& a.abort_reader == still_running(t, state, ended, ConnectionTask::Reader)
            &&& a.abort_dispatcher == still_running(t, state, ended, ConnectionTask::Dispatcher)
            &&& a.abort_writer == still_running(t, state, ended, ConnectionTask::Writer)
        }),
{
}

/// The caller is told to return exactly when the connection is done, and then the result of
/// the task it reported last; otherwise it is told to wait for a task that the new state
/// waits for.
pub proof fn law_shutdown_returns_the_last_reported_task(
    transport: Transport,
    state: ConnectionShutdown,
    ended: ConnectionTask,
    end: TaskEnd,
)
    requires
        awaits(state, ended),
        transport == Transport::WebSocket ==> state != ConnectionShutdown::AwaitingReader,
    ensures
        ({
            let (next, a) = connection_step_spec(transport, state, ended, end);
            &&& next == ConnectionShutdown::Done <==> a.next == NextStep::Return(ended)
            &&& a.next matches NextStep::Await(t) ==> awaits(next, t) && next
                != ConnectionShutdown::Done
        }),
{
}

/// The name of a task in the message of its failed join.
pub open spec fn task_label_text(transport: Transport, task: ConnectionTask) -> Seq<char> {
    match transport {
        Transport::Stdio => "stdio"@,
        Transport::WebSocket => match task {
            ConnectionTask::Reader => "WebSocket reader"@,
            ConnectionTask::Dispatcher => "WebSocket dispatcher"@,
            ConnectionTask::Writer => "WebSocket writer"@,
        },
    }
}

/// The message of the I/O error that reports that joining `task` failed with `failure`.
pub fn task_failure_message(transport: Transport, task: ConnectionTask, failure: &str) -> (r:
    String)
    ensures
        r@ == task_label_text(transport, task) + " task failed: "@ + failure@,
{
    let mut message = match transport {
        Transport::Stdio => "stdio".to_owned(),
        Transport::WebSocket => match task {
            ConnectionTask::Reader => "WebSocket reader".to_owned(),
            ConnectionTask::Dispatcher => "WebSocket dispatcher".to_owned(),
            ConnectionTask::Writer => "WebSocket writer".to_owned(),
        },
    };
    message.append(" task failed: ");
    message.append(failure);
    message
}

/// On either transport, a reader that ends well while the connection runs (the client closed
/// its input cleanly) drains the connection: nothing is cancelled or aborted and the dispatcher
/// is awaited, so the requests already read are answered. On WebSocket, the dispatcher's good
/// end then cancels the connection and awaits the writer without aborting it, and the writer's
/// end is the connection's result.
pub proof fn law_clean_end_of_input_drains_on_every_transport(
    transport: Transport,
    writer_end: TaskEnd,
)
    ensures
        ({
            let (s1, a1) = connection_step_spec(
                transport,
                ConnectionShutdown::Running,
                ConnectionTask::Reader,
                TaskEnd::Succeeded,
            );
            &&& s1 == ConnectionShutdown::DrainingDispatcher
            &&& !a1.cancel && !a1.abort_reader && !a1.abort_dispatcher && !a1.abort_writer
            &&& a1.next == NextStep::Await(ConnectionTask::Dispatcher)
        }),
        ({
            let (s2, a2) = connection_step_spec(
                Transport::WebSocket,
                ConnectionShutdown::DrainingDispatcher,
                ConnectionTask::Dispatcher,
                TaskEnd::Succeeded,
            );
            let (s3, a3) = connection_step_spec(Transport::WebSocket, s2, ConnectionTask::Writer, writer_end);
            &&& s2 == ConnectionShutdown::AwaitingWriter
            &&& a2.cancel && !a2.abort_writer && !a2.abort_reader && !a2.abort_dispatcher
            &&& a2.next == NextStep::Await(ConnectionTask::Writer)
            &&& s3 == ConnectionShutdown::Done
            &&& a3.next == NextStep::Return(ConnectionTask::Writer)
        }),
{
}

} // verus!
