//! The D-Bus traffic of the host: which bus names belong to which PID
//! namespace, and which methods each bus name called.

use dashmap::DashMap;
use std::collections::HashMap;
use vstd::prelude::*;
use vstd::std_specs::hash::group_hash_axioms;
use vstd::string::StringExecFns;
use crate::strace::option_view;
use crate::text::{clone_texts, lemma_texts_push, same_text, texts};

verus! {

broadcast use group_hash_axioms;

/// The four kinds of D-Bus messages.
#[derive(Clone, Copy, Debug, PartialEq, Eq, Structural)]
pub enum MessageType {
    MethodCall,
    MethodReturn,
    Error,
    Signal,
}

/// The name of a kind of message.
pub open spec fn kind_name(kind: MessageType) -> Seq<char> {
    match kind {
        MessageType::MethodCall => "MethodCall"@,
        MessageType::MethodReturn => "MethodReturn"@,
        MessageType::Error => "Error"@,
        MessageType::Signal => "Signal"@,
    }
}

/// The name under which a kind of message is stored.
pub fn msg_type_to_string(kind: MessageType) -> (r: String)
    ensures
        r@ == kind_name(kind),
{
    match kind {
        MessageType::MethodCall => String::from_str("MethodCall"),
        MessageType::MethodReturn => String::from_str("MethodReturn"),
        MessageType::Error => String::from_str("Error"),
        MessageType::Signal => String::from_str("Signal"),
    }
}

/// The kind of message with the given name. Any other text is an error,
/// whose message names the text.
pub fn msg_type_from_string(name: &str) -> (r: Result<MessageType, String>)
    ensures
        match r {
            Ok(kind) => kind_name(kind) == name@,
            Err(message) => {
                &&& forall|kind: MessageType| kind_name(kind) != name@
                &&& message@ == "Unknown message type: "@ + name@
            },
        },
{
    if same_text(name, "MethodCall") {
        Ok(MessageType::MethodCall)
    } else if same_text(name, "MethodReturn") {
        Ok(MessageType::MethodReturn)
    } else if same_text(name, "Error") {
        Ok(MessageType::Error)
    } else if same_text(name, "Signal") {
        Ok(MessageType::Signal)
    } else {
        let mut message = String::from_str("Unknown message type: ");
        message.append(name);
        Err(message)
    }
}

/// One message seen on the bus.
#[derive(Debug)]
pub struct DbusMsg {
    pub msg_type: MessageType,
    pub sender: Option<String>,
    pub destination: Option<String>,
    /// The serial of the message; of a method return, the serial of the
    /// call that it answers.
    pub serial: Option<u32>,
    pub interface: Option<String>,
    pub method: Option<String>,
    pub path: Option<String>,
    pub arguments: Option<Vec<String>>,
}

/// The contents of a [`DbusMsg`].
pub struct DbusMsgView {
    pub msg_type: MessageType,
    pub sender: Option<Seq<char>>,
    pub destination: Option<Seq<char>>,
    pub serial: Option<u32>,
    pub interface: Option<Seq<char>>,
    pub method: Option<Seq<char>>,
    pub path: Option<Seq<char>>,
    pub arguments: Option<Seq<Seq<char>>>,
}

impl View for DbusMsg {
    type V = DbusMsgView;

    open spec fn view(&self) -> DbusMsgView {
        DbusMsgView {
            msg_type: self.msg_type,
            sender: option_view(self.sender),
            destination: option_view(self.destination),
            serial: self.serial,
            interface: option_view(self.interface),
            method: option_view(self.method),
            path: option_view(self.path),
            arguments: match self.arguments {
                Some(list) => Some(texts(list@)),
                None => None,
            },
        }
    }
}

fn clone_option(text: &Option<String>) -> (r: Option<String>)
    ensures
        option_view(r) == option_view(*text),
{
    match text {
        Some(s) => Some(s.clone()),
        None => None,
    }
}

impl Clone for DbusMsg {
    fn clone(&self) -> (r: DbusMsg)
        ensures
            r@ == self@,
    {
        DbusMsg {
            msg_type: self.msg_type,
            sender: clone_option(&self.sender),
            destination: clone_option(&self.destination),
            serial: self.serial,
            interface: clone_option(&self.interface),
            method: clone_option(&self.method),
            path: clone_option(&self.path),
            arguments: match &self.arguments {
                Some(list) => Some(clone_texts(list)),
                None => None,
            },
        }
    }
}

/// The contents of a list of messages.
pub open spec fn msgs_view(msgs: Seq<DbusMsg>) -> Seq<DbusMsgView> {
    msgs.map_values(|m: DbusMsg| m@)
}

/// A copy of the list.
fn clone_msgs(msgs: &Vec<DbusMsg>) -> (r: Vec<DbusMsg>)
    ensures
        msgs_view(r@) == msgs_view(msgs@),
{
    let mut out: Vec<DbusMsg> = Vec::new();
    let mut i: usize = 0;
    while i < msgs.len()
        invariant
            i <= msgs.len(),
            msgs_view(out@) == msgs_view(msgs@).take(i as int),
        decreases msgs.len() - i,
    {
        let msg = msgs[i].clone();
        proof {
            assert(msgs_view(out@.push(msg)) =~= msgs_view(out@).push(msg@));
            assert(msgs_view(msgs@).take(i as int + 1) =~= msgs_view(msgs@).take(i as int).push(
                msgs@[i as int]@,
            ));
        }
        out.push(msg);
        i = i + 1;
    }
    proof {
        assert(msgs_view(msgs@).take(i as int) =~= msgs_view(msgs@));
    }
    out
}

/// What identifies a call on the bus: who sent it, and its serial.
#[derive(PartialEq, Eq, Hash, Debug)]
pub struct MsgKey {
    pub sender: String,
    pub serial: u32,
}

impl View for MsgKey {
    type V = (Seq<char>, u32);

    open spec fn view(&self) -> (Seq<char>, u32) {
        (self.sender@, self.serial)
    }
}

/// The concurrent map `dashmap::DashMap`. Nothing is known of what is inside
/// a value but what the functions below say of it.
#[verifier::external_type_specification]
#[verifier::external_body]
#[verifier::reject_recursive_types(K)]
#[verifier::reject_recursive_types(V)]
#[verifier::reject_recursive_types(S)]
pub struct ExDashMap<K, V, S>(DashMap<K, V, S>);

/// The calls that ask for the credentials of a bus name, each with the bus
/// name that it asks about.
pub type Credentials = DashMap<(String, u32), String>;

/// The bus names owned in each PID namespace.
pub type Owners = DashMap<u32, Vec<String>>;

/// The method calls of each bus name.
pub type Requests = DashMap<String, Vec<DbusMsg>>;

/// What a map of pending calls holds: for the sender and serial of each
/// call the bus name asked about.
pub uninterp spec fn credentials_held(map: Credentials) -> Map<(Seq<char>, u32), Seq<char>>;

/// What a map of owners holds: for each namespace its bus names.
pub uninterp spec fn owners_held(map: Owners) -> Map<u32, Seq<Seq<char>>>;

/// What a map of requests holds: for each bus name its method calls.
pub uninterp spec fn requests_held(map: Requests) -> Map<Seq<char>, Seq<DbusMsgView>>;

/// The contents of a list of namespaces with their bus names.
pub open spec fn owner_rows(rows: Seq<(u32, Vec<String>)>) -> Seq<(u32, Seq<Seq<char>>)> {
    rows.map_values(|row: (u32, Vec<String>)| (row.0, texts(row.1@)))
}

/// Whether the rows are the entries of the map, each once, in any order.
pub open spec fn lists_owners(rows: Seq<(u32, Seq<Seq<char>>)>, held: Map<u32, Seq<Seq<char>>>) -> bool {
    &&& forall|a: int, b: int| 0 <= a < b < rows.len() ==> rows[a].0 != rows[b].0
    &&& forall|a: int|
        0 <= a < rows.len() ==> held.contains_key((#[trigger] rows[a]).0) && held[rows[a].0]
            == rows[a].1
    &&& forall|ns: u32| #[trigger]
        held.contains_key(ns) ==> exists|a: int| 0 <= a < rows.len() && (#[trigger] rows[a]).0 == ns
}

/// An empty map of pending calls.
pub open spec fn no_credentials() -> Map<(Seq<char>, u32), Seq<char>> {
    Map::empty()
}

/// An empty map of owners.
pub open spec fn no_owners() -> Map<u32, Seq<Seq<char>>> {
    Map::empty()
}

/// An empty map of requests.
pub open spec fn no_requests() -> Map<Seq<char>, Seq<DbusMsgView>> {
    Map::empty()
}

/// Calls `DashMap::new`. The contract says that the new map holds nothing.
#[verifier::external_body]
fn credentials_new() -> (r: Credentials)
    ensures
        credentials_held(r) == no_credentials(),
{
    DashMap::new()
}

/// Calls `DashMap::insert`. The contract says that afterwards the key holds
/// the value, in the place of what it held before, and that every other key
/// holds what it held.
#[verifier::external_body]
fn credentials_insert(map: &mut Credentials, key: &MsgKey, name: String)
    ensures
        credentials_held(*final(map)) == credentials_held(*old(map)).insert(key@, name@),
{
    map.insert((key.sender.clone(), key.serial), name);
}

/// Calls `DashMap::get` and copies what it refers to. The contract says
/// that the result is what the key holds, and nothing where the map does
/// not hold the key.
#[verifier::external_body]
fn credentials_get(map: &Credentials, sender: &String, serial: u32) -> (r: Option<String>)
    ensures
        r.is_some() == credentials_held(*map).contains_key((sender@, serial)),
        r matches Some(name) ==> name@ == credentials_held(*map)[(sender@, serial)],
{
    match map.get(&(sender.clone(), serial)) {
        Some(held) => Some(held.value().clone()),
        None => None,
    }
}

/// Calls `DashMap::new`. The contract says that the new map holds nothing.
#[verifier::external_body]
fn owners_new() -> (r: Owners)
    ensures
        owners_held(r) == no_owners(),
{
    DashMap::new()
}

/// Calls `DashMap::insert`. The contract says that afterwards the key holds
/// the value, in the place of what it held before, and that every other key
/// holds what it held.
#[verifier::external_body]
fn owners_insert(map: &mut Owners, ns: u32, names: Vec<String>)
    ensures
        owners_held(*final(map)) == owners_held(*old(map)).insert(ns, texts(names@)),
{
    map.insert(ns, names);
}

/// Calls `DashMap::get` and copies what it refers to. The contract says
/// that the result is what the key holds, and nothing where the map does
/// not hold the key.
#[verifier::external_body]
fn owners_get(map: &Owners, ns: u32) -> (r: Option<Vec<String>>)
    ensures
        r.is_some() == owners_held(*map).contains_key(ns),
        r matches Some(names) ==> texts(names@) == owners_held(*map)[ns],
{
    match map.get(&ns) {
        Some(held) => Some(held.value().clone()),
        None => None,
    }
}

/// Calls `DashMap::iter` and copies the entries that it walks. The
/// contract says that the rows are the entries of the map, each key once;
/// it says nothing of their order.
#[verifier::external_body]
fn owners_list(map: &Owners) -> (r: Vec<(u32, Vec<String>)>)
    ensures
        lists_owners(owner_rows(r@), owners_held(*map)),
{
    let mut rows = Vec::new();
    for entry in map.iter() {
        rows.push((*entry.key(), entry.value().clone()));
    }
    rows
}

/// Calls `DashMap::new`. The contract says that the new map holds nothing.
#[verifier::external_body]
fn requests_new() -> (r: Requests)
    ensures
        requests_held(r) == no_requests(),
{
    DashMap::new()
}

/// Calls `DashMap::insert`. The contract says that afterwards the key holds
/// the value, in the place of what it held before, and that every other key
/// holds what it held.
#[verifier::external_body]
fn requests_insert(map: &mut Requests, name: String, msgs: Vec<DbusMsg>)
    ensures
        requests_held(*final(map)) == requests_held(*old(map)).insert(name@, msgs_view(msgs@)),
{
    map.insert(name, msgs);
}

/// Calls `DashMap::get` and copies what it refers to. The contract says
/// that the result is what the key holds, and nothing where the map does
/// not hold the key.
#[verifier::external_body]
fn requests_get(map: &Requests, name: &String) -> (r: Option<Vec<DbusMsg>>)
    ensures
        r.is_some() == requests_held(*map).contains_key(name@),
        r matches Some(msgs) ==> msgs_view(msgs@) == requests_held(*map)[name@],
{
    match map.get(name) {
        Some(held) => Some(held.value().clone()),
        None => None,
    }
}

/// What the monitor remembers of the traffic.
pub struct Memory {
    /// The calls for credentials that wait for their answer.
    pub credentials_requests: Credentials,
    /// Every message, in the order seen.
    pub messages: Vec<DbusMsg>,
    /// The bus names owned in each PID namespace.
    pub owners: Owners,
    /// The method calls of each bus name.
    pub requests: Requests,
}

impl Memory {
    /// A memory of nothing.
    pub fn new() -> (r: Memory)
        ensures
            credentials_held(r.credentials_requests) == no_credentials(),
            r.messages@.len() == 0,
            owners_held(r.owners) == no_owners(),
            requests_held(r.requests) == no_requests(),
    {
        Memory {
            credentials_requests: credentials_new(),
            messages: Vec::new(),
            owners: owners_new(),
            requests: requests_new(),
        }
    }
}

impl Default for Memory {
    fn default() -> (r: Memory)
        ensures
            credentials_held(r.credentials_requests) == no_credentials(),
            r.messages@.len() == 0,
            owners_held(r.owners) == no_owners(),
            requests_held(r.requests) == no_requests(),
    {
        Memory::new()
    }
}

/// What a message means to the monitor.
#[derive(Clone, Copy, Debug, PartialEq, Eq, Structural)]
pub enum MessageRole {
    /// A call that asks for the credentials of a bus name.
    CredentialsRequest,
    /// The answer to such a call that waits for it.
    CredentialsReply,
    /// Any other method call.
    MethodCall,
    /// Anything else.
    Other,
}

/// The role of a message, where `pending` holds the calls for credentials
/// that wait for their answer.
pub open spec fn role_of(pending: Map<(Seq<char>, u32), Seq<char>>, msg: DbusMsgView) -> MessageRole {
    if msg.msg_type == MessageType::MethodCall && msg.method == Some(
        "GetConnectionCredentials"@,
    ) {
        MessageRole::CredentialsRequest
    } else if msg.msg_type == MessageType::MethodReturn && msg.destination.is_some()
        && msg.serial.is_some() && pending.contains_key(
        (msg.destination.unwrap(), msg.serial.unwrap()),
    ) {
        MessageRole::CredentialsReply
    } else if msg.msg_type == MessageType::MethodCall {
        MessageRole::MethodCall
    } else {
        MessageRole::Other
    }
}

/// The pending calls after a message: a call for credentials that has a
/// sender, a serial and a bus name asked about is added.
pub open spec fn pending_after(
    pending: Map<(Seq<char>, u32), Seq<char>>,
    msg: DbusMsgView,
    subject: Option<Seq<char>>,
) -> Map<(Seq<char>, u32), Seq<char>> {
    if role_of(pending, msg) == MessageRole::CredentialsRequest && msg.sender.is_some()
        && msg.serial.is_some() && subject.is_some() {
        pending.insert((msg.sender.unwrap(), msg.serial.unwrap()), subject.unwrap())
    } else {
        pending
    }
}

/// The owners after a message: the answer to a pending call for
/// credentials gives the bus name asked about to the namespace of the
/// process that owns it, once.
pub open spec fn owners_after(
    owners: Map<u32, Seq<Seq<char>>>,
    pending: Map<(Seq<char>, u32), Seq<char>>,
    msg: DbusMsgView,
    namespace: Option<u32>,
) -> Map<u32, Seq<Seq<char>>> {
    if role_of(pending, msg) == MessageRole::CredentialsReply && namespace.is_some() {
        let ns = namespace.unwrap();
        let name = pending[(msg.destination.unwrap(), msg.serial.unwrap())];
        if !owners.contains_key(ns) {
            owners.insert(ns, seq![name])
        } else if owners[ns].contains(name) {
            owners
        } else {
            owners.insert(ns, owners[ns].push(name))
        }
    } else {
        owners
    }
}

/// The requests after a message: a method call with a sender, other than
/// one for credentials, is added to the calls of its sender.
pub open spec fn requests_after(
    requests: Map<Seq<char>, Seq<DbusMsgView>>,
    pending: Map<(Seq<char>, u32), Seq<char>>,
    msg: DbusMsgView,
) -> Map<Seq<char>, Seq<DbusMsgView>> {
    if role_of(pending, msg) == MessageRole::MethodCall && msg.sender.is_some() {
        let sender = msg.sender.unwrap();
        if requests.contains_key(sender) {
            requests.insert(sender, requests[sender].push(msg))
        } else {
            requests.insert(sender, seq![msg])
        }
    } else {
        requests
    }
}

/// The role of a message for this memory.
pub fn classify_message(data: &Memory, msg: &DbusMsg) -> (r: MessageRole)
    ensures
        r == role_of(credentials_held(data.credentials_requests), msg@),
{
    let is_call = msg.msg_type == MessageType::MethodCall;
    let asks = match &msg.method {
        Some(method) => same_text(method.as_str(), "GetConnectionCredentials"),
        None => false,
    };
    if is_call && asks {
        return MessageRole::CredentialsRequest;
    }
    if msg.msg_type == MessageType::MethodReturn {
        match (&msg.destination, msg.serial) {
            (Some(destination), Some(serial)) => {
                if credentials_get(&data.credentials_requests, destination, serial).is_some() {
                    return MessageRole::CredentialsReply;
                }
            },
            _ => {},
        }
    }
    if is_call {
        MessageRole::MethodCall
    } else {
        MessageRole::Other
    }
}

fn list_has_text(list: &Vec<String>, text: &String) -> (r: bool)
    ensures
        r == texts(list@).contains(text@),
{
    let mut i: usize = 0;
    while i < list.len()
        invariant
            i <= list.len(),
            forall|j: int| 0 <= j < i ==> texts(list@)[j] != text@,
        decreases list.len() - i,
    {
        if list[i] == *text {
            proof {
                assert(texts(list@)[i as int] == text@);
            }
            return true;
        }
        i = i + 1;
    }
    false
}

/// Takes a message into the memory. `subject` is the bus name that a call
/// for credentials asks about, and `namespace` the PID namespace of the
/// process that an answer to such a call names, each where it is known.
#[verifier::rlimit(50)]
pub fn handle_message(
    data: &mut Memory,
    msg: DbusMsg,
    subject: Option<String>,
    namespace: Option<u32>,
)
    ensures
        msgs_view(final(data).messages@) == msgs_view(old(data).messages@).push(msg@),
        credentials_held(final(data).credentials_requests) == pending_after(
            credentials_held(old(data).credentials_requests),
            msg@,
            option_view(subject),
        ),
        owners_held(final(data).owners) == owners_after(
            owners_held(old(data).owners),
            credentials_held(old(data).credentials_requests),
            msg@,
            namespace,
        ),
        requests_held(final(data).requests) == requests_after(
            requests_held(old(data).requests),
            credentials_held(old(data).credentials_requests),
            msg@,
        ),
{
    let role = classify_message(data, &msg);
    match role {
        MessageRole::CredentialsRequest => {
            match (&msg.sender, msg.serial, subject) {
                (Some(sender), Some(serial), Some(name)) => {
                    let key = MsgKey { sender: sender.clone(), serial };
                    credentials_insert(&mut data.credentials_requests, &key, name);
                },
                _ => {},
            }
        },
        MessageRole::CredentialsReply => {
            match (&msg.destination, msg.serial, namespace) {
                (Some(destination), Some(serial), Some(ns)) => {
                    match credentials_get(&data.credentials_requests, destination, serial) {
                        Some(name) => {
                            match owners_get(&data.owners, ns) {
                                Some(names) => {
                                    if !list_has_text(&names, &name) {
                                        let mut names = names;
                                        proof {
                                            lemma_texts_push(names@, name);
                                        }
                                        names.push(name);
                                        owners_insert(&mut data.owners, ns, names);
                                    }
                                },
                                None => {
                                    let mut names: Vec<String> = Vec::new();
                                    proof {
                                        lemma_texts_push(names@, name);
                                        assert(texts(names@).push(name@) =~= seq![name@]);
                                    }
                                    names.push(name);
                                    owners_insert(&mut data.owners, ns, names);
                                },
                            }
                        },
                        None => {},
                    }
                },
                _ => {},
            }
        },
        MessageRole::MethodCall => {
            match &msg.sender {
                Some(sender) => {
                    let mut calls = match requests_get(&data.requests, sender) {
                        Some(calls) => calls,
                        None => Vec::new(),
                    };
                    let copy = msg.clone();
                    proof {
                        assert(msgs_view(calls@.push(copy)) =~= msgs_view(calls@).push(copy@));
                        if !requests_held(data.requests).contains_key(sender@) {
                            assert(msgs_view(calls@).push(copy@) =~= seq![msg@]);
                        }
                    }
                    calls.push(copy);
                    requests_insert(&mut data.requests, sender.clone(), calls);
                },
                None => {},
            }
        },
        MessageRole::Other => {},
    }
    proof {
        assert(msgs_view(data.messages@.push(msg)) =~= msgs_view(data.messages@).push(msg@));
    }
    data.messages.push(msg);
}

/// The method calls of the bus names of the list, in the order of the
/// list.
pub open spec fn requests_of_names(
    names: Seq<Seq<char>>,
    requests: Map<Seq<char>, Seq<DbusMsgView>>,
) -> Seq<DbusMsgView>
    decreases names.len(),
{
    if names.len() == 0 {
        Seq::empty()
    } else if requests.contains_key(names.last()) {
        requests_of_names(names.drop_last(), requests) + requests[names.last()]
    } else {
        requests_of_names(names.drop_last(), requests)
    }
}

/// Whether some bus name of the list has method calls.
pub open spec fn has_requests(names: Seq<Seq<char>>, requests: Map<Seq<char>, Seq<DbusMsgView>>) -> bool {
    exists|i: int| 0 <= i < names.len() && requests.contains_key(#[trigger] names[i])
}

/// The method calls made from each PID namespace: those of the bus names
/// owned there. A namespace whose bus names made none is left out.
#[verifier::rlimit(50)]
pub fn requests_by_namespace(data: &Memory) -> (r: HashMap<u32, Vec<DbusMsg>>)
    ensures
        forall|ns: u32| #[trigger]
            r@.contains_key(ns) <==> owners_held(data.owners).contains_key(ns) && has_requests(
                owners_held(data.owners)[ns],
                requests_held(data.requests),
            ),
        forall|ns: u32| #[trigger]
            r@.contains_key(ns) ==> msgs_view(r@[ns]@) == requests_of_names(
                owners_held(data.owners)[ns],
                requests_held(data.requests),
            ),
{
    let rows = owners_list(&data.owners);
    let ghost owners = owners_held(data.owners);
    let ghost requests = requests_held(data.requests);
    let ghost listed = owner_rows(rows@);
    let mut joined: HashMap<u32, Vec<DbusMsg>> = HashMap::new();
    let mut a: usize = 0;
    while a < rows.len()
        invariant
            a <= rows.len(),
            owners == owners_held(data.owners),
            requests == requests_held(data.requests),
            listed == owner_rows(rows@),
            lists_owners(listed, owners),
            forall|ns: u32| #[trigger]
                joined@.contains_key(ns) <==> (exists|b: int|
                    0 <= b < a && (#[trigger] listed[b]).0 == ns) && has_requests(
                    owners[ns],
                    requests,
                ),
            forall|ns: u32| #[trigger]
                joined@.contains_key(ns) ==> msgs_view(joined@[ns]@) == requests_of_names(
                    owners[ns],
                    requests,
                ),
        decreases rows.len() - a,
    {
        let ns = rows[a].0;
        let names = &rows[a].1;
        proof {
            assert(listed[a as int] == (ns, texts(names@)));
            assert(owners.contains_key(listed[a as int].0));
        }
        let mut calls: Vec<DbusMsg> = Vec::new();
        let mut any = false;
        let mut i: usize = 0;
        proof {
            assert(msgs_view(calls@) =~= Seq::empty());
            assert(texts(names@).take(0) =~= Seq::empty());
        }
        while i < names.len()
            invariant
                i <= names.len(),
                requests == requests_held(data.requests),
                msgs_view(calls@) == requests_of_names(texts(names@).take(i as int), requests),
                any == has_requests(texts(names@).take(i as int), requests),
            decreases names.len() - i,
        {
            let ghost before = texts(names@).take(i as int);
            let ghost after = texts(names@).take(i as int + 1);
            proof {
                assert(after.drop_last() =~= before);
                assert(after.last() == names@[i as int]@);
                if has_requests(before, requests) {
                    let j = choose|j: int|
                        0 <= j < before.len() && requests.contains_key(#[trigger] before[j]);
                    assert(after[j] == before[j]);
                }
                if has_requests(after, requests) && !requests.contains_key(after.last()) {
                    let j = choose|j: int|
                        0 <= j < after.len() && requests.contains_key(#[trigger] after[j]);
                    assert(before[j] == after[j]);
                }
            }
            match requests_get(&data.requests, &names[i]) {
                Some(found) => {
                    let mut found = found;
                    let ghost head = calls@;
                    let ghost tail = found@;
                    calls.append(&mut found);
                    any = true;
                    proof {
                        assert(msgs_view(head + tail) =~= msgs_view(head) + msgs_view(tail));
                        assert(requests.contains_key(after[i as int]));
                    }
                },
                None => {},
            }
            i = i + 1;
        }
        proof {
            assert(texts(names@).take(i as int) =~= texts(names@));
        }
        let ghost old_joined = joined@;
        if any {
            proof {
                assert(!old_joined.contains_key(ns)) by {
                    if old_joined.contains_key(ns) {
                        let b = choose|b: int| 0 <= b < a && (#[trigger] listed[b]).0 == ns;
                    }
                }
            }
            joined.insert(ns, calls);
        }
        proof {
            assert forall|other: u32| #[trigger]
                joined@.contains_key(other) <==> (exists|b: int|
                    0 <= b < a + 1 && (#[trigger] listed[b]).0 == other) && has_requests(
                    owners[other],
                    requests,
                ) by {
                if other == ns {
                    assert(listed[a as int].0 == other);
                } else {
                    if exists|b: int| 0 <= b < a + 1 && (#[trigger] listed[b]).0 == other {
                        let b = choose|b: int| 0 <= b < a + 1 && (#[trigger] listed[b]).0 == other;
                        assert(b < a);
                    }
                }
            }
        }
        a = a + 1;
    }
    proof {
        assert forall|ns: u32| #[trigger]
            joined@.contains_key(ns) <==> owners.contains_key(ns) && has_requests(
                owners[ns],
                requests,
            ) by {
            if owners.contains_key(ns) {
                let b = choose|b: int| 0 <= b < listed.len() && (#[trigger] listed[b]).0 == ns;
            }
            if joined@.contains_key(ns) {
                let b = choose|b: int| 0 <= b < a && (#[trigger] listed[b]).0 == ns;
                assert(owners.contains_key(listed[b].0));
            }
        }
    }
    joined
}

/// The names of the methods called by the messages: interface, dot,
/// method, for each method call that has both.
pub open spec fn method_names(msgs: Seq<DbusMsgView>) -> Seq<Seq<char>>
    decreases msgs.len(),
{
    if msgs.len() == 0 {
        Seq::empty()
    } else {
        let before = method_names(msgs.drop_last());
        let msg = msgs.last();
        if msg.msg_type == MessageType::MethodCall && msg.interface.is_some()
            && msg.method.is_some() {
            before.push(msg.interface.unwrap() + "."@ + msg.method.unwrap())
        } else {
            before
        }
    }
}

/// The methods that were called from PID namespace `nsid`; none where the
/// record has nothing for it.
pub fn get_dbus_methods(content: &HashMap<u32, Vec<DbusMsg>>, nsid: u32) -> (r: Vec<String>)
    ensures
        texts(r@) == if content@.contains_key(nsid) {
            method_names(msgs_view(content@[nsid]@))
        } else {
            Seq::empty()
        },
{
    let mut methods: Vec<String> = Vec::new();
    proof {
        assert(texts(methods@) =~= Seq::empty());
    }
    let requests = match content.get(&nsid) {
        Some(requests) => requests,
        None => {
            return methods;
        },
    };
    let mut i: usize = 0;
    proof {
        assert(msgs_view(requests@).take(0) =~= Seq::empty());
    }
    while i < requests.len()
        invariant
            i <= requests.len(),
            texts(methods@) == method_names(msgs_view(requests@).take(i as int)),
        decreases requests.len() - i,
    {
        let request = &requests[i];
        proof {
            let after = msgs_view(requests@).take(i as int + 1);
            assert(after.drop_last() =~= msgs_view(requests@).take(i as int));
            assert(after.last() == request@);
        }
        if request.msg_type == MessageType::MethodCall {
            match (&request.interface, &request.method) {
                (Some(interface), Some(method)) => {
                    let mut name = interface.clone();
                    name.append(".");
                    name.append(method.as_str());
                    proof {
                        lemma_texts_push(methods@, name);
                    }
                    methods.push(name);
                },
                _ => {},
            }
        }
        i = i + 1;
    }
    proof {
        assert(msgs_view(requests@).take(i as int) =~= msgs_view(requests@));
    }
    methods
}

} // verus!
