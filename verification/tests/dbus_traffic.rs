use capable::bus::{
    classify_message, get_dbus_methods, handle_message, msg_type_from_string, msg_type_to_string,
    requests_by_namespace, DbusMsg, Memory, MessageRole, MessageType, MsgKey,
};
use std::collections::HashMap;

fn message(kind: MessageType, sender: &str, dest: &str, serial: u32, method: Option<&str>) -> DbusMsg {
    DbusMsg {
        msg_type: kind,
        sender: Some(sender.to_string()),
        destination: Some(dest.to_string()),
        serial: Some(serial),
        interface: method.map(|_| "org.freedesktop.DBus".to_string()),
        method: method.map(|m| m.to_string()),
        path: None,
        arguments: None,
    }
}

fn call(sender: &str, serial: u32, interface: &str, method: &str) -> DbusMsg {
    DbusMsg {
        msg_type: MessageType::MethodCall,
        sender: Some(sender.to_string()),
        destination: Some("org.example".to_string()),
        serial: Some(serial),
        interface: Some(interface.to_string()),
        method: Some(method.to_string()),
        path: Some("/".to_string()),
        arguments: Some(vec!["1".to_string()]),
    }
}

fn names(msgs: &[DbusMsg]) -> Vec<String> {
    msgs.iter().map(|m| m.method.clone().unwrap()).collect()
}

#[test]
fn message_types_have_names() {
    let all = [
        (MessageType::MethodCall, "MethodCall"),
        (MessageType::MethodReturn, "MethodReturn"),
        (MessageType::Error, "Error"),
        (MessageType::Signal, "Signal"),
    ];
    for (kind, name) in all {
        assert_eq!(msg_type_to_string(kind), name);
        assert_eq!(msg_type_from_string(name), Ok(kind));
    }
    assert_eq!(
        msg_type_from_string("signal"),
        Err("Unknown message type: signal".to_string())
    );
    assert_eq!(msg_type_from_string(""), Err("Unknown message type: ".to_string()));
}

#[test]
fn keys_compare_by_sender_and_serial() {
    let a = MsgKey { sender: ":1.7".to_string(), serial: 21 };
    assert_eq!(a, MsgKey { sender: ":1.7".to_string(), serial: 21 });
    assert_ne!(a, MsgKey { sender: ":1.7".to_string(), serial: 22 });
    assert_ne!(a, MsgKey { sender: ":1.8".to_string(), serial: 21 });
}

#[test]
fn credentials_reply_names_the_owner() {
    let mut memory = Memory::default();
    let ask = message(MessageType::MethodCall, ":1.7", "org.freedesktop.DBus", 21, Some("GetConnectionCredentials"));
    assert_eq!(classify_message(&memory, &ask), MessageRole::CredentialsRequest);
    handle_message(&mut memory, ask, Some(":1.21".to_string()), None);
    assert_eq!(*memory.credentials_requests.get(&(":1.7".to_string(), 21)).unwrap(), ":1.21");
    assert!(memory.requests.is_empty());

    let stray = message(MessageType::MethodReturn, "org.freedesktop.DBus", ":1.7", 22, None);
    assert_eq!(classify_message(&memory, &stray), MessageRole::Other);
    handle_message(&mut memory, stray, None, Some(5));
    assert!(memory.owners.is_empty());

    let answer = message(MessageType::MethodReturn, "org.freedesktop.DBus", ":1.7", 21, None);
    assert_eq!(classify_message(&memory, &answer), MessageRole::CredentialsReply);
    handle_message(&mut memory, answer.clone(), None, Some(4026532100));
    assert_eq!(*memory.owners.get(&4026532100).unwrap(), vec![":1.21"]);
    handle_message(&mut memory, answer.clone(), None, Some(4026532100));
    assert_eq!(*memory.owners.get(&4026532100).unwrap(), vec![":1.21"]);
    handle_message(&mut memory, answer, None, None);
    assert_eq!(memory.owners.len(), 1);
    assert_eq!(memory.messages.len(), 5);

    let ask = message(MessageType::MethodCall, ":1.7", "org.freedesktop.DBus", 30, Some("GetConnectionCredentials"));
    handle_message(&mut memory, ask, Some(":1.22".to_string()), None);
    let answer = message(MessageType::MethodReturn, "org.freedesktop.DBus", ":1.7", 30, None);
    handle_message(&mut memory, answer, None, Some(4026532100));
    assert_eq!(*memory.owners.get(&4026532100).unwrap(), vec![":1.21", ":1.22"]);
}

#[test]
fn incomplete_credentials_request_is_only_recorded() {
    let mut memory = Memory::new();
    let mut ask = message(MessageType::MethodCall, ":1.7", "bus", 21, Some("GetConnectionCredentials"));
    ask.sender = None;
    handle_message(&mut memory, ask, Some(":1.21".to_string()), None);
    let ask = message(MessageType::MethodCall, ":1.7", "bus", 21, Some("GetConnectionCredentials"));
    handle_message(&mut memory, ask, None, None);
    assert!(memory.credentials_requests.is_empty());
    assert!(memory.requests.is_empty());
    assert_eq!(memory.messages.len(), 2);
}

#[test]
fn method_calls_are_kept_by_sender() {
    let mut memory = Memory::new();
    handle_message(&mut memory, call(":1.21", 1, "org.a.B", "Reboot"), None, None);
    handle_message(&mut memory, call(":1.22", 1, "org.a.B", "Stop"), None, None);
    handle_message(&mut memory, call(":1.21", 2, "org.a.B", "Start"), None, None);
    let signal = message(MessageType::Signal, ":1.21", "x", 3, Some("Changed"));
    assert_eq!(classify_message(&memory, &signal), MessageRole::Other);
    handle_message(&mut memory, signal, None, None);
    let mut anonymous = call(":1.21", 4, "org.a.B", "Hidden");
    anonymous.sender = None;
    assert_eq!(classify_message(&memory, &anonymous), MessageRole::MethodCall);
    handle_message(&mut memory, anonymous, None, None);
    assert_eq!(names(&memory.requests.get(":1.21").unwrap()), vec!["Reboot", "Start"]);
    assert_eq!(names(&memory.requests.get(":1.22").unwrap()), vec!["Stop"]);
    assert_eq!(memory.requests.len(), 2);
    assert_eq!(memory.messages.len(), 5);
    assert_eq!(memory.messages[1].method.as_deref(), Some("Stop"));
}

#[test]
fn requests_are_joined_by_namespace() {
    let mut memory = Memory::new();
    memory.owners.insert(10, vec![":1.1".to_string(), ":1.2".to_string(), ":1.3".to_string()]);
    memory.owners.insert(20, vec![":1.9".to_string()]);
    memory.owners.insert(30, vec![":1.3".to_string()]);
    memory.owners.insert(40, Vec::new());
    memory.requests.insert(":1.3".to_string(), vec![call(":1.3", 1, "i", "C")]);
    memory.requests.insert(":1.1".to_string(), vec![call(":1.1", 1, "i", "A"), call(":1.1", 2, "i", "B")]);
    memory.requests.insert(":1.5".to_string(), vec![call(":1.5", 1, "i", "Z")]);
    let joined = requests_by_namespace(&memory);
    assert_eq!(joined.len(), 2);
    assert_eq!(names(&joined[&10]), vec!["A", "B", "C"]);
    assert_eq!(names(&joined[&30]), vec!["C"]);
    assert!(requests_by_namespace(&Memory::new()).is_empty());
}

#[test]
fn methods_of_a_namespace() {
    let mut content: HashMap<u32, Vec<DbusMsg>> = HashMap::new();
    let mut bare = call(":1.1", 3, "org.a.B", "NoInterface");
    bare.interface = None;
    content.insert(
        7,
        vec![
            call(":1.1", 1, "org.freedesktop.systemd1.Manager", "Reboot"),
            message(MessageType::Signal, ":1.1", "x", 2, Some("Changed")),
            bare,
            call(":1.1", 4, "org.a.B", "Stop"),
        ],
    );
    content.insert(8, Vec::new());
    assert_eq!(
        get_dbus_methods(&content, 7),
        vec!["org.freedesktop.systemd1.Manager.Reboot", "org.a.B.Stop"]
    );
    assert!(get_dbus_methods(&content, 8).is_empty());
    assert!(get_dbus_methods(&content, 9).is_empty());
}
