use portmap::command::{Action, Command, Event, Intent, Stage};
use portmap::enumerate::{entry_reply, EntryReply, MappingEnumerator, ScanStatus};
use portmap::model::{
    CommandState, ErrorKind, Ipv4, MappingEntry, Protocol, ProtocolSelector, Target,
};
use portmap::mutate::{plan_for_port, plan_for_snapshot, resolve, MutationExecutor, Policy};

/// A gateway that keeps its table in memory and notes every call made to it.
struct FakeGateway {
    reachable: bool,
    ip_known: bool,
    table: Vec<MappingEntry>,
    read_fails_at: Option<(u32, EntryReply)>,
    refuses: Vec<Target>,
    calls: Vec<String>,
}

fn gateway(table: Vec<MappingEntry>) -> FakeGateway {
    FakeGateway {
        reachable: true,
        ip_known: true,
        table,
        read_fails_at: None,
        refuses: Vec::new(),
        calls: Vec::new(),
    }
}

fn name(protocol: Protocol) -> &'static str {
    match protocol {
        Protocol::Tcp => "TCP",
        Protocol::Udp => "UDP",
    }
}

fn entry(protocol: Protocol, external_port: u16, description: &str) -> MappingEntry {
    MappingEntry {
        remote_host: String::new(),
        external_port,
        protocol,
        internal_client: Ipv4 { bits: 0xC000_0205 },
        internal_port: 80,
        lease_seconds: 0,
        description: description.to_string(),
    }
}

impl FakeGateway {
    fn perform(&mut self, action: Action) -> Event {
        match action {
            Action::Discover { timeout_seconds } => {
                self.calls.push(format!("discover {}", timeout_seconds));
                if self.reachable {
                    Event::GatewayFound
                } else {
                    Event::DiscoveryFailed
                }
            }
            Action::QueryExternalIp => {
                self.calls.push("ip".to_string());
                if self.ip_known {
                    Event::ExternalIpKnown(Ipv4 { bits: 0xCB00_7107 })
                } else {
                    Event::ExternalIpFailed
                }
            }
            Action::ReadEntry { index } => {
                self.calls.push(format!("read {}", index));
                if let Some((at, reply)) = &self.read_fails_at {
                    if *at == index {
                        return Event::Table(reply.clone());
                    }
                }
                match self.table.get(index as usize) {
                    Some(row) => Event::Table(EntryReply::Entry(row.clone())),
                    None => Event::Table(EntryReply::EndOfTable),
                }
            }
            Action::AddMapping {
                protocol,
                external_port,
                internal_host,
                internal_port,
                lease_seconds,
                description,
            } => {
                self.calls.push(format!("add {} {}", name(protocol), external_port));
                if self.refuses.contains(&Target { protocol, external_port }) {
                    return Event::MutationFailed;
                }
                self.table.push(MappingEntry {
                    remote_host: String::new(),
                    external_port,
                    protocol,
                    internal_client: internal_host,
                    internal_port,
                    lease_seconds,
                    description,
                });
                Event::MutationSucceeded
            }
            Action::RemoveMapping { target } => {
                self.calls.push(format!("remove {} {}", name(target.protocol), target.external_port));
                if self.refuses.contains(&target) {
                    return Event::MutationFailed;
                }
                let before = self.table.len();
                self.table
                    .retain(|row| !(row.protocol == target.protocol && row.external_port == target.external_port));
                if self.table.len() < before {
                    Event::MutationSucceeded
                } else {
                    Event::MutationFailed
                }
            }
            Action::Stop => unreachable!(),
        }
    }
}

fn run(intent: Intent, device: &mut FakeGateway) -> Command {
    let mut command = Command::new(intent, 60);
    loop {
        let action = command.next_action();
        if action == Action::Stop {
            break;
        }
        let event = device.perform(action);
        command.handle(event);
    }
    command
}

fn mutations(device: &FakeGateway) -> Vec<String> {
    device
        .calls
        .iter()
        .filter(|c| c.starts_with("add") || c.starts_with("remove"))
        .cloned()
        .collect()
}

#[test]
fn enumerator_returns_every_row_in_order() {
    let rows = vec![
        entry(Protocol::Tcp, 80, "web"),
        entry(Protocol::Udp, 53, "dns"),
        entry(Protocol::Tcp, 22, "ssh"),
    ];
    let mut walk = MappingEnumerator::new();
    let mut asked: Vec<u32> = Vec::new();
    while let Some(index) = walk.next_index() {
        asked.push(index);
        let reply = match rows.get(index as usize) {
            Some(row) => EntryReply::Entry(row.clone()),
            None => EntryReply::EndOfTable,
        };
        walk.accept(reply);
    }
    assert_eq!(asked, vec![0, 1, 2, 3]);
    assert_eq!(walk.status(), ScanStatus::Complete);
    assert_eq!(walk.snapshot(), Some(rows));
}

#[test]
fn enumerator_accepts_an_empty_table() {
    let mut walk = MappingEnumerator::new();
    assert_eq!(walk.next_index(), Some(0));
    walk.accept(EntryReply::EndOfTable);
    assert_eq!(walk.next_index(), None);
    assert_eq!(walk.snapshot(), Some(Vec::new()));
}

#[test]
fn enumerator_aborts_on_a_read_error() {
    let mut walk = MappingEnumerator::new();
    walk.accept(EntryReply::Entry(entry(Protocol::Tcp, 80, "web")));
    assert_eq!(walk.next_index(), Some(1));
    walk.accept(EntryReply::PermissionDenied);
    assert_eq!(walk.status(), ScanStatus::Aborted);
    assert_eq!(walk.next_index(), None);
    walk.accept(EntryReply::Entry(entry(Protocol::Tcp, 81, "late")));
    assert_eq!(walk.status(), ScanStatus::Aborted);
    assert_eq!(walk.snapshot(), None);
}

#[test]
fn enumerator_ignores_replies_after_the_end() {
    let mut walk = MappingEnumerator::new();
    walk.accept(EntryReply::EndOfTable);
    walk.accept(EntryReply::Entry(entry(Protocol::Tcp, 81, "late")));
    walk.accept(EntryReply::OtherDeviceError);
    assert_eq!(walk.status(), ScanStatus::Complete);
    assert_eq!(walk.snapshot(), Some(Vec::new()));
}

#[test]
fn view_lists_the_table() {
    let rows = vec![entry(Protocol::Tcp, 80, "web"), entry(Protocol::Udp, 53, "dns")];
    let mut device = gateway(rows.clone());
    let command = run(Intent::View { print_ip: false }, &mut device);
    assert_eq!(command.state(), CommandState::Completed);
    assert_eq!(command.entries(), &rows);
    assert_eq!(command.external_ip(), None);
    assert_eq!(device.calls, vec!["discover 60", "read 0", "read 1", "read 2"]);
    assert_eq!(command.state().exit_code(), 0);
}

#[test]
fn view_asks_for_the_external_ip_first_when_told_to() {
    let mut device = gateway(vec![entry(Protocol::Tcp, 80, "web")]);
    let command = run(Intent::View { print_ip: true }, &mut device);
    assert_eq!(command.state(), CommandState::Completed);
    assert_eq!(device.calls, vec!["discover 60", "ip", "read 0", "read 1"]);
    assert_eq!(command.external_ip(), Some(Ipv4 { bits: 0xCB00_7107 }));
}

#[test]
fn view_fails_when_the_external_ip_is_unknown() {
    let mut device = gateway(vec![entry(Protocol::Tcp, 80, "web")]);
    device.ip_known = false;
    let command = run(Intent::View { print_ip: true }, &mut device);
    assert_eq!(command.state(), CommandState::Failed);
    assert_eq!(command.error(), Some(ErrorKind::ExternalIpQueryFailure));
    assert_eq!(device.calls, vec!["discover 60", "ip"]);
}

#[test]
fn discovery_failure_fails_the_command() {
    let mut device = gateway(Vec::new());
    device.reachable = false;
    let command = run(Intent::RemoveAll, &mut device);
    assert_eq!(command.state(), CommandState::Failed);
    assert_eq!(command.error(), Some(ErrorKind::DiscoveryFailure));
    assert_eq!(device.calls, vec!["discover 60"]);
    assert_ne!(command.state().exit_code(), 0);
}

#[test]
fn read_error_fails_the_command_without_any_removal() {
    let rows = vec![
        entry(Protocol::Tcp, 80, "web"),
        entry(Protocol::Udp, 53, "dns"),
        entry(Protocol::Tcp, 22, "ssh"),
    ];
    let mut device = gateway(rows);
    device.read_fails_at = Some((1, EntryReply::PermissionDenied));
    let command = run(Intent::RemoveAll, &mut device);
    assert_eq!(command.state(), CommandState::Failed);
    assert_eq!(command.error(), Some(ErrorKind::EnumerationFailure));
    assert_eq!(device.calls, vec!["discover 60", "read 0", "read 1"]);
    assert!(mutations(&device).is_empty());
    assert_eq!(device.table.len(), 3);
    assert_eq!(command.state().exit_code(), 1);
}

#[test]
fn other_device_error_fails_a_view() {
    let mut device = gateway(vec![entry(Protocol::Tcp, 80, "web")]);
    device.read_fails_at = Some((0, EntryReply::OtherDeviceError));
    let command = run(Intent::View { print_ip: false }, &mut device);
    assert_eq!(command.state(), CommandState::Failed);
    assert_eq!(command.error(), Some(ErrorKind::EnumerationFailure));
}

fn add(selector: ProtocolSelector, external_port: u16) -> Intent {
    Intent::Add {
        selector,
        external_port,
        internal_host: Ipv4 { bits: 0xC000_0205 },
        internal_port: 80,
        lease_seconds: 0,
        description: "x".to_string(),
    }
}

#[test]
fn add_both_calls_udp_before_tcp() {
    let mut device = gateway(Vec::new());
    let command = run(add(ProtocolSelector::Both, 8080), &mut device);
    assert_eq!(command.state(), CommandState::Completed);
    assert_eq!(mutations(&device), vec!["add UDP 8080", "add TCP 8080"]);
    assert_eq!(command.succeeded(), 2);
}

#[test]
fn remove_both_calls_udp_before_tcp() {
    let mut device = gateway(vec![entry(Protocol::Tcp, 8080, "a"), entry(Protocol::Udp, 8080, "b")]);
    let command = run(
        Intent::Remove { selector: ProtocolSelector::Both, external_port: 8080 },
        &mut device,
    );
    assert_eq!(command.state(), CommandState::Completed);
    assert_eq!(mutations(&device), vec!["remove UDP 8080", "remove TCP 8080"]);
    assert!(device.table.is_empty());
}

#[test]
fn add_both_stops_after_a_refused_udp_call() {
    let mut device = gateway(Vec::new());
    device.refuses.push(Target { protocol: Protocol::Udp, external_port: 8080 });
    let command = run(add(ProtocolSelector::Both, 8080), &mut device);
    assert_eq!(command.state(), CommandState::Failed);
    assert_eq!(command.error(), Some(ErrorKind::MutationFailure));
    assert_eq!(mutations(&device), vec!["add UDP 8080"]);
    assert!(device.table.is_empty());
}

#[test]
fn add_both_keeps_udp_when_tcp_is_refused() {
    let mut device = gateway(Vec::new());
    device.refuses.push(Target { protocol: Protocol::Tcp, external_port: 8080 });
    let command = run(add(ProtocolSelector::Both, 8080), &mut device);
    assert_eq!(command.state(), CommandState::Failed);
    assert_eq!(mutations(&device), vec!["add UDP 8080", "add TCP 8080"]);
    assert_eq!(device.table.len(), 1);
    assert_eq!(device.table[0].protocol, Protocol::Udp);
    assert_eq!(command.succeeded(), 1);
}

#[test]
fn remove_single_protocol_makes_one_call() {
    let mut device = gateway(vec![entry(Protocol::Tcp, 8080, "a"), entry(Protocol::Udp, 8080, "b")]);
    let command = run(
        Intent::Remove { selector: ProtocolSelector::Tcp, external_port: 8080 },
        &mut device,
    );
    assert_eq!(command.state(), CommandState::Completed);
    assert_eq!(mutations(&device), vec!["remove TCP 8080"]);
    assert_eq!(device.table, vec![entry(Protocol::Udp, 8080, "b")]);
}

#[test]
fn remove_of_a_missing_mapping_fails() {
    let mut device = gateway(Vec::new());
    let command = run(
        Intent::Remove { selector: ProtocolSelector::Udp, external_port: 9 },
        &mut device,
    );
    assert_eq!(command.state(), CommandState::Failed);
    assert_eq!(command.error(), Some(ErrorKind::MutationFailure));
    assert_eq!(command.failures(), &vec![Target { protocol: Protocol::Udp, external_port: 9 }]);
}

#[test]
fn remove_all_on_an_empty_table_does_nothing() {
    let mut device = gateway(Vec::new());
    let command = run(Intent::RemoveAll, &mut device);
    assert_eq!(command.state(), CommandState::Completed);
    assert!(mutations(&device).is_empty());
    assert_eq!(device.calls, vec!["discover 60", "read 0"]);
    assert_eq!(command.notice(), Some("No mappings to delete."));
    assert_eq!(command.state().exit_code(), 0);
}

#[test]
fn remove_all_clears_the_table() {
    let rows = vec![
        entry(Protocol::Tcp, 80, "web"),
        entry(Protocol::Udp, 53, "dns"),
        entry(Protocol::Tcp, 22, "ssh"),
    ];
    let mut device = gateway(rows);
    let command = run(Intent::RemoveAll, &mut device);
    assert_eq!(command.state(), CommandState::Completed);
    assert_eq!(mutations(&device), vec!["remove TCP 80", "remove UDP 53", "remove TCP 22"]);
    assert!(device.table.is_empty());
    assert_eq!(command.notice(), None);
    assert_eq!(command.succeeded(), 3);
}

#[test]
fn remove_all_goes_on_after_a_refused_removal() {
    let rows = vec![
        entry(Protocol::Tcp, 80, "web"),
        entry(Protocol::Udp, 53, "dns"),
        entry(Protocol::Tcp, 22, "ssh"),
    ];
    let mut device = gateway(rows);
    device.refuses.push(Target { protocol: Protocol::Udp, external_port: 53 });
    let command = run(Intent::RemoveAll, &mut device);
    assert_eq!(mutations(&device), vec!["remove TCP 80", "remove UDP 53", "remove TCP 22"]);
    assert_eq!(command.state(), CommandState::CompletedWithErrors);
    assert_ne!(command.state().exit_code(), 0);
    assert_eq!(command.failures(), &vec![Target { protocol: Protocol::Udp, external_port: 53 }]);
    assert_eq!(command.succeeded(), 2);
    assert_eq!(command.error(), None);
    assert_eq!(device.table, vec![entry(Protocol::Udp, 53, "dns")]);
}

#[test]
fn added_mapping_is_read_back() {
    let mut device = gateway(Vec::new());
    let added = run(add(ProtocolSelector::Tcp, 8080), &mut device);
    assert_eq!(added.state(), CommandState::Completed);
    let listed = run(Intent::View { print_ip: false }, &mut device);
    assert_eq!(listed.state(), CommandState::Completed);
    let rows = listed.entries();
    assert_eq!(rows.len(), 1);
    assert_eq!(rows[0].protocol, Protocol::Tcp);
    assert_eq!(rows[0].external_port, 8080);
    assert_eq!(rows[0].internal_client, Ipv4 { bits: 0xC000_0205 });
    assert_eq!(rows[0].internal_port, 80);
    assert_eq!(rows[0].lease_seconds, 0);
    assert_eq!(rows[0].description, "x");
}

#[test]
fn command_starts_by_looking_for_the_gateway() {
    let command = Command::new(Intent::View { print_ip: false }, 5);
    assert_eq!(command.state(), CommandState::Start);
    assert_eq!(command.next_action(), Action::Discover { timeout_seconds: 5 });
}

#[test]
fn command_ignores_an_event_that_answers_nothing() {
    let mut command = Command::new(Intent::RemoveAll, 60);
    command.handle(Event::MutationFailed);
    assert_eq!(command.state(), CommandState::Start);
    command.handle(Event::GatewayFound);
    assert_eq!(command.stage(), Stage::Reading);
    assert_eq!(command.state(), CommandState::GatewayAcquired);
    command.handle(Event::ExternalIpFailed);
    assert_eq!(command.next_action(), Action::ReadEntry { index: 0 });
}

#[test]
fn finished_command_stays_finished() {
    let mut device = gateway(Vec::new());
    let mut command = run(Intent::RemoveAll, &mut device);
    command.handle(Event::Table(EntryReply::Entry(entry(Protocol::Tcp, 1, "late"))));
    command.handle(Event::MutationFailed);
    assert_eq!(command.state(), CommandState::Completed);
    assert_eq!(command.next_action(), Action::Stop);
    assert!(command.state().is_terminal());
}

#[test]
fn add_action_carries_the_request() {
    let mut command = Command::new(add(ProtocolSelector::Udp, 4000), 60);
    command.handle(Event::GatewayFound);
    assert_eq!(
        command.next_action(),
        Action::AddMapping {
            protocol: Protocol::Udp,
            external_port: 4000,
            internal_host: Ipv4 { bits: 0xC000_0205 },
            internal_port: 80,
            lease_seconds: 0,
            description: "x".to_string(),
        }
    );
}

#[test]
fn selector_resolves_to_its_protocols() {
    assert_eq!(resolve(ProtocolSelector::Tcp), vec![Protocol::Tcp]);
    assert_eq!(resolve(ProtocolSelector::Udp), vec![Protocol::Udp]);
    assert_eq!(resolve(ProtocolSelector::Both), vec![Protocol::Udp, Protocol::Tcp]);
    assert_eq!(
        plan_for_port(ProtocolSelector::Both, 7),
        vec![
            Target { protocol: Protocol::Udp, external_port: 7 },
            Target { protocol: Protocol::Tcp, external_port: 7 },
        ]
    );
}

#[test]
fn snapshot_plan_uses_each_rows_own_key() {
    let rows = vec![entry(Protocol::Tcp, 80, "web"), entry(Protocol::Udp, 53, "dns")];
    assert_eq!(
        plan_for_snapshot(&rows),
        vec![
            Target { protocol: Protocol::Tcp, external_port: 80 },
            Target { protocol: Protocol::Udp, external_port: 53 },
        ]
    );
    assert_eq!(rows[1].target(), Target { protocol: Protocol::Udp, external_port: 53 });
}

#[test]
fn executor_fail_fast_halts_on_first_failure() {
    let mut executor = MutationExecutor::new(plan_for_port(ProtocolSelector::Both, 7), Policy::FailFast);
    assert_eq!(executor.state(), CommandState::GatewayAcquired);
    assert_eq!(executor.pending(), Some(Target { protocol: Protocol::Udp, external_port: 7 }));
    executor.record(false);
    assert_eq!(executor.pending(), None);
    assert_eq!(executor.state(), CommandState::Failed);
    assert_eq!(executor.attempted(), 1);
    executor.record(true);
    assert_eq!(executor.attempted(), 1);
}

#[test]
fn executor_collects_every_failure() {
    let plan = vec![
        Target { protocol: Protocol::Tcp, external_port: 1 },
        Target { protocol: Protocol::Tcp, external_port: 2 },
        Target { protocol: Protocol::Tcp, external_port: 3 },
    ];
    let mut executor = MutationExecutor::new(plan.clone(), Policy::ContinueAndCollect);
    executor.record(false);
    executor.record(true);
    executor.record(false);
    assert_eq!(executor.attempted(), 3);
    assert_eq!(executor.pending(), None);
    assert_eq!(executor.state(), CommandState::CompletedWithErrors);
    assert_eq!(executor.failures(), &vec![plan[0], plan[2]]);
}

#[test]
fn executor_with_an_empty_plan_is_complete() {
    let executor = MutationExecutor::new(Vec::new(), Policy::ContinueAndCollect);
    assert_eq!(executor.pending(), None);
    assert_eq!(executor.state(), CommandState::Completed);
}

#[test]
fn exit_code_is_zero_only_when_completed() {
    assert_eq!(CommandState::Completed.exit_code(), 0);
    assert_eq!(CommandState::CompletedWithErrors.exit_code(), 1);
    assert_eq!(CommandState::Failed.exit_code(), 1);
    assert!(!CommandState::Start.is_terminal());
    assert!(!CommandState::GatewayAcquired.is_terminal());
    assert!(CommandState::CompletedWithErrors.is_terminal());
}

#[test]
fn every_error_kind_has_its_sentence() {
    assert_eq!(ErrorKind::InvalidArgument.message(), "Invalid argument.");
    assert_eq!(ErrorKind::DiscoveryFailure.message(), "Failed to find UPNP-enabled gateway.");
    assert_eq!(ErrorKind::ExternalIpQueryFailure.message(), "Failed to get external IP address.");
    assert_eq!(ErrorKind::EnumerationFailure.message(), "Error getting port mapping.");
    assert_eq!(ErrorKind::MutationFailure.message(), "Error changing port mapping.");
}

#[test]
fn command_keeps_its_request() {
    let command = Command::new(Intent::RemoveAll, 60);
    assert_eq!(command.intent(), &Intent::RemoveAll);
}

#[test]
fn row_with_a_dotted_quad_client_becomes_an_entry() {
    let reply = entry_reply(
        "".to_string(),
        8080,
        Protocol::Tcp,
        "192.0.2.5",
        80,
        0,
        "x".to_string(),
    );
    assert_eq!(reply, EntryReply::Entry(entry(Protocol::Tcp, 8080, "x")));
}

#[test]
fn row_with_a_named_client_is_a_device_error() {
    let reply = entry_reply(
        "".to_string(),
        8080,
        Protocol::Udp,
        "printer.lan",
        80,
        0,
        "x".to_string(),
    );
    assert_eq!(reply, EntryReply::OtherDeviceError);
    let mut walk = MappingEnumerator::new();
    walk.accept(reply);
    assert_eq!(walk.status(), ScanStatus::Aborted);
    assert_eq!(walk.snapshot(), None);
}

#[test]
fn snapshot_is_withheld_until_the_end_of_table_signal() {
    let mut walk = MappingEnumerator::new();
    walk.accept(EntryReply::Entry(entry(Protocol::Tcp, 80, "web")));
    assert_eq!(walk.status(), ScanStatus::Scanning);
    let mut unfinished = MappingEnumerator::new();
    unfinished.accept(EntryReply::Entry(entry(Protocol::Tcp, 80, "web")));
    assert_eq!(unfinished.snapshot(), None);
    walk.accept(EntryReply::EndOfTable);
    assert_eq!(walk.snapshot(), Some(vec![entry(Protocol::Tcp, 80, "web")]));
}
