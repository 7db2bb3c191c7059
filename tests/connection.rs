use chat::connection::step;
use chat::connection::Action;
use chat::connection::Input;
use chat::connection::Phase;
use chat::Client;
use chat::ClientId;
use chat::Request;
use chat::Response;
use chat::ServerToClient;

#[test]
fn handshake_waits_for_the_id() {
    assert_eq!(step(Phase::Handshake, Input::SocketClosed), (Phase::Handshake, Action::Nothing));
    assert_eq!(step(Phase::Handshake, Input::Request(Request::Shutdown)), (Phase::Handshake, Action::Nothing));
    assert_eq!(step(Phase::Handshake, Input::MailboxClosed), (Phase::Closed, Action::Stop));
    assert_eq!(step(Phase::Handshake, Input::QueueClosed), (Phase::Closed, Action::Stop));
    assert_eq!(
        step(Phase::Handshake, Input::Outbound(ServerToClient::Response(Response::Error))),
        (Phase::Closed, Action::Stop)
    );
    assert_eq!(
        step(Phase::Handshake, Input::Accepted(ClientId(5))),
        (Phase::Ready(ClientId(5)), Action::Write(Response::Accepted(Client { id: ClientId(5) })))
    );
}

#[test]
fn ready_forwards_and_writes() {
    let ready = Phase::Ready(ClientId(5));
    assert_eq!(
        step(ready, Input::Request(Request::GetUser("a".to_string()))),
        (ready, Action::Forward(ClientId(5), Request::GetUser("a".to_string())))
    );
    assert_eq!(
        step(ready, Input::Outbound(ServerToClient::Response(Response::Error))),
        (ready, Action::Write(Response::Error))
    );
    assert_eq!(step(ready, Input::Outbound(ServerToClient::Accepted(ClientId(6)))), (ready, Action::Nothing));
    assert_eq!(step(ready, Input::Accepted(ClientId(6))), (ready, Action::Nothing));
}

#[test]
fn ready_ends() {
    let ready = Phase::Ready(ClientId(5));
    assert_eq!(step(ready, Input::SocketClosed), (Phase::Closed, Action::ShutdownAndStop(ClientId(5))));
    assert_eq!(step(ready, Input::Malformed), (Phase::Closed, Action::ShutdownAndStop(ClientId(5))));
    assert_eq!(step(ready, Input::MailboxClosed), (Phase::Closed, Action::Stop));
    assert_eq!(step(ready, Input::QueueClosed), (Phase::Closed, Action::Stop));
    assert_eq!(step(Phase::Closed, Input::SocketClosed), (Phase::Closed, Action::Nothing));
}
