use pinball::affinity::AffinityError;
use pinball::config::{missing_profile_message, Config, NetworkInterface, Profile};
use pinball::queues::{NetworkQueues, QueueError};

fn interface(name: &str, irqs: &[(&str, &str)]) -> NetworkInterface {
    let q = NetworkQueues { transmit: None, receive: None, combined: Some(2) };
    let mut nic = NetworkInterface::new(name.to_string(), q);
    for (irq, aff) in irqs {
        nic.set_irq(irq.to_string(), aff.to_string());
    }
    nic
}

fn profile(name: &str, nics: Vec<NetworkInterface>) -> Profile {
    Profile { name: name.to_string(), network_interface: nics }
}

#[test]
fn duplicate_profile_names_pick_first() {
    let config = Config::new(vec![
        profile("other", vec![interface("eth9", &[])]),
        profile("web", vec![interface("eth0", &[])]),
        profile("web", vec![interface("eth1", &[]), interface("eth2", &[])]),
    ]);
    let p = config.profile("web").unwrap();
    assert_eq!(p.network_interface.len(), 1);
    assert_eq!(p.network_interface[0].name(), "eth0");
    assert_eq!(config.profile_index("web"), Some(1));
}

#[test]
fn absent_profile_is_none() {
    let config = Config::new(vec![profile("web", vec![])]);
    assert!(config.profile("db").is_none());
    assert_eq!(config.profile_index("db"), None);
    assert!(Config::default().profile("web").is_none());
}

#[test]
fn missing_profile_message_names_both() {
    let m = missing_profile_message("db", "/etc/pinball.toml");
    assert!(m.contains("db"));
    assert!(m.contains("/etc/pinball.toml"));
    assert_eq!(m, "profile: db was not found in the config: \"/etc/pinball.toml\"");
}

#[test]
fn interface_queue_command() {
    let nic = interface("eth0", &[]);
    assert_eq!(
        nic.configure_queues(),
        Ok(vec!["-L".to_string(), "eth0".to_string(), "combined".to_string(), "2".to_string()])
    );
    let bad = interface("eth0;reboot", &[]);
    assert_eq!(bad.configure_queues(), Err(QueueError::UnsafeInterfaceName));
}

#[test]
fn irq_writes_in_order() {
    let nic = interface("eth0", &[("30", "0-1"), ("31", "2,3")]);
    let writes = nic.irq_affinity_writes().unwrap();
    assert_eq!(writes.len(), 2);
    assert_eq!(writes[0].irq, 30);
    assert_eq!(writes[0].path, "/proc/irq/30/smp_affinity_list");
    assert_eq!(writes[0].affinity, "0-1");
    assert_eq!(writes[1].irq, 31);
    assert_eq!(writes[1].affinity, "2,3");
}

#[test]
fn set_irq_replaces_in_place() {
    let nic = interface("eth0", &[("5", "1"), ("6", "2"), ("5", "3")]);
    assert_eq!(
        nic.irqs(),
        &vec![("5".to_string(), "3".to_string()), ("6".to_string(), "2".to_string())]
    );
}

#[test]
fn one_bad_setting_refuses_all() {
    let nic = interface("eth0", &[("30", "0-1"), ("31", "0,1; echo hi"), ("x", "1")]);
    assert_eq!(nic.irq_affinity_writes().unwrap_err(), AffinityError::InvalidAffinityList);
    let nic = interface("eth0", &[("x", "1"), ("31", "0,1; echo hi")]);
    assert_eq!(nic.irq_affinity_writes().unwrap_err(), AffinityError::InvalidIrq);
}

#[test]
fn no_irqs_no_writes() {
    let nic = interface("eth0", &[]);
    assert!(nic.irq_affinity_writes().unwrap().is_empty());
    assert_eq!(nic.queues(), NetworkQueues { transmit: None, receive: None, combined: Some(2) });
}
