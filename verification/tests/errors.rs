use koala::backoff::{double, halve, DP_LIMIT};
use koala::error::{DatapathError, EngineError, Error, IpcError, ResourceError};
use koala::interface::{Handle, InterfaceError, MessageMeta, MessageTemplateErased, RpcMsgType};
use koala::queue::SendError;

#[test]
fn control_errors_are_worded() {
    assert_eq!(Error::TransportType.message(), "Failed to set transport type");
    assert_eq!(
        Error::Resource(ResourceError::NotFound).message(),
        "Resource error: Resource not found in table"
    );
    assert_eq!(
        Error::Resource(ResourceError::Exists).message(),
        "Resource error: Resource exists in table"
    );
    assert_eq!(Error::IpcTryRecv.message(), "ipc-channel TryRecvError");
    assert_eq!(Error::Customer(IpcError::IpcSend).message(), "Customer error: IPC send error");
    assert_eq!(Error::MarshalLibBuilder.message(), "Build marshal library failed");
}

#[test]
fn datapath_errors_are_worded() {
    assert_eq!(DatapathError::ShmIpc.message(), "Shared memory queue error.");
    assert_eq!(DatapathError::ShmRingbuf.message(), "Shared memory queue ringbuf error.");
    assert_eq!(
        DatapathError::Resource(ResourceError::Invalid).message(),
        "Resource error: Resource is empty or out of range"
    );
    assert_eq!(DatapathError::InternalQueueSend.message(), "Internal queue send error");
    assert_eq!(
        EngineError::Datapath(DatapathError::InternalQueueSend).message(),
        "Internal queue send error"
    );
    assert_eq!(
        EngineError::Control(Error::TransportType).message(),
        "Failed to set transport type"
    );
}

#[test]
fn errors_convert() {
    assert_eq!(DatapathError::from_ipc(IpcError::ShmIpc), DatapathError::ShmIpc);
    assert_eq!(DatapathError::from_ipc(IpcError::ShmRingbuf), DatapathError::ShmRingbuf);
    assert_eq!(
        DatapathError::from_resource(ResourceError::NotFound),
        DatapathError::Resource(ResourceError::NotFound)
    );
    let m = MessageTemplateErased {
        meta: MessageMeta {
            conn_id: Handle(3),
            func_id: 0,
            call_id: 9,
            len: 1,
            msg_type: RpcMsgType::Response,
        },
        shmptr: 5,
    };
    assert_eq!(DatapathError::from_send(SendError(m)), DatapathError::InternalQueueSend);
    assert_eq!(Error::from_resource(ResourceError::Exists), Error::Resource(ResourceError::Exists));
    assert_eq!(Error::from_ipc(IpcError::IpcSend), Error::Customer(IpcError::IpcSend));
    match Error::TransportType.into_interface() {
        InterfaceError::Generic(m) => assert_eq!(m, "Failed to set transport type"),
    }
    match Error::Resource(ResourceError::Exists).into_interface() {
        InterfaceError::Generic(m) => assert_eq!(m, "Resource error: Resource exists in table"),
    }
}

#[test]
fn the_spin_budget_doubles_and_halves_within_its_bounds() {
    assert_eq!(DP_LIMIT, 1 << 17);
    assert_eq!(double(1), 2);
    assert_eq!(double(3), 6);
    assert_eq!(double(65536), 131072);
    assert_eq!(double(65537), 131072);
    assert_eq!(double(131072), 131072);
    assert_eq!(halve(1), 1);
    assert_eq!(halve(2), 1);
    assert_eq!(halve(3), 1);
    assert_eq!(halve(131072), 65536);
    let mut b = 1;
    for _ in 0..17 {
        b = double(b);
    }
    assert_eq!(b, DP_LIMIT);
    for _ in 0..40 {
        b = halve(b);
    }
    assert_eq!(b, 1);
}
