use rustsmb::frame2::{CMD_CHANGE_NOTIFY, CMD_CLOSE, CMD_CREATE, CMD_ECHO, CMD_FLUSH, CMD_IOCTL, CMD_LOCK, CMD_LOGOFF, CMD_QUERY_DIRECTORY, CMD_QUERY_INFO, CMD_READ, CMD_SET_INFO, CMD_TREE_DISCONNECT, CMD_WRITE};
use rustsmb::io2::{Decode, EchoCmd, EmptyBody, Encode, IoContext, Outcome, ReplyHeader, SealIntent, SmbRequest};
use rustsmb::smb::Status;
use rustsmb::wire2::{CreateReq, IoctlReq, LockReq, ReadReq, SetInfoReq, WriteReq};

fn reply(command: u16, message_id: u64) -> ReplyHeader {
    ReplyHeader { command, message_id, session_id: 1, tree_id: 1, credits: 1, seal: SealIntent::default() }
}

#[test]
fn accept_split_respond_moves_through_states() {
    let req = SmbRequest::parse(CMD_ECHO, &[]).expect("decode echo");
    assert_eq!(req.command(), CMD_ECHO);
    let ctx = IoContext::accept(reply(CMD_ECHO, 7), req);
    let (ctx, req) = ctx.split();
    assert!(matches!(req, SmbRequest::Echo(_)));
    let resp = ctx.respond(Status::SUCCESS, vec![1, 2, 3]);
    assert_eq!(resp.status, Status::SUCCESS);
    assert_eq!(resp.reply.message_id, 7);
    assert_eq!(resp.body, vec![1, 2, 3]);
}

#[test]
fn unknown_command_is_not_implemented() {
    assert_eq!(SmbRequest::parse(0xBEEF, &[]).unwrap_err(), Status::NOT_IMPLEMENTED);
}

#[test]
fn every_migrated_command_routes_to_its_decoder() {
    for &code in &[
        CMD_CREATE,
        CMD_CLOSE,
        CMD_FLUSH,
        CMD_READ,
        CMD_WRITE,
        CMD_LOCK,
        CMD_IOCTL,
        CMD_QUERY_DIRECTORY,
        CMD_CHANGE_NOTIFY,
        CMD_QUERY_INFO,
        CMD_SET_INFO,
    ] {
        assert_eq!(
            SmbRequest::parse(code, &[]).unwrap_err(),
            Status::INVALID_PARAMETER,
            "command {code} should route to a decoder, not fall through",
        );
    }
    for &code in &[CMD_ECHO, CMD_TREE_DISCONNECT, CMD_LOGOFF] {
        assert!(SmbRequest::parse(code, &[]).is_ok());
    }
}

#[test]
fn decode_command_codes_match_the_table() {
    assert_eq!(<CreateReq as Decode>::command_code(), CMD_CREATE);
    assert_eq!(<ReadReq as Decode>::command_code(), CMD_READ);
    assert_eq!(<WriteReq as Decode>::command_code(), CMD_WRITE);
    assert_eq!(<LockReq as Decode>::command_code(), CMD_LOCK);
    assert_eq!(<IoctlReq as Decode>::command_code(), CMD_IOCTL);
    assert_eq!(<SetInfoReq as Decode>::command_code(), CMD_SET_INFO);
}

#[test]
fn a_deferred_request_is_completed_under_its_own_header() {
    let req = SmbRequest::parse(CMD_ECHO, &[]).expect("decode echo");
    let (ctx, _req) = IoContext::accept(reply(CMD_LOCK, 9), req).split();
    let parked = ctx.defer(77);
    assert_eq!(parked.async_id(), 77);
    let interim = parked.interim(Status::PENDING, vec![0; 9]);
    assert_eq!(interim.status, Status::PENDING);
    assert_eq!(interim.reply.message_id, 9);
    let last = parked.complete(Status::SUCCESS, vec![4]);
    assert_eq!(last.reply, interim.reply);
    assert_eq!(last.body, vec![4]);
}

#[test]
fn echo_is_always_answered() {
    let req = SmbRequest::parse(CMD_ECHO, &[]).expect("decode echo");
    let (ctx, _req) = IoContext::accept(reply(CMD_ECHO, 3), req).split();
    match EchoCmd::serve(ctx) {
        Outcome::Final(r) => {
            assert_eq!(r.status, Status::SUCCESS);
            assert_eq!(r.body, EmptyBody.encode(&reply(CMD_ECHO, 3)));
            assert_eq!(r.body, vec![4, 0, 0, 0]);
        }
        _ => panic!("echo has a final answer"),
    }
}
