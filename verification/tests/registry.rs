use ethereum_networks::capabilities::NodeCapabilities;
use ethereum_networks::error::{NetworkError, RoutingError};
use ethereum_networks::registry::EthereumNetworks;
use ethereum_networks::retry::{AttemptOutcome, CallError};
use std::cell::RefCell;
use std::sync::Arc;

fn caps(archive: bool, traces: bool) -> NodeCapabilities {
    NodeCapabilities { archive, traces }
}

fn flat(registry: &EthereumNetworks<&'static str>) -> Vec<(String, NodeCapabilities, &'static str)> {
    registry.flatten().into_iter().map(|(name, capabilities, handle)| (name, capabilities, *handle)).collect()
}

#[test]
fn a_new_registry_knows_no_network() {
    let registry: EthereumNetworks<&'static str> = EthereumNetworks::new();
    assert!(registry.flatten().is_empty());
    assert!(registry.get(&"mainnet".to_string()).is_none());
    assert_eq!(
        registry.adapters_with_capabilities("mainnet".to_string(), &caps(false, false)).err(),
        Some(NetworkError::NetworkNotSupported("mainnet".to_string()))
    );
}

#[test]
fn registry_lookup_after_sort_starts_with_a_minimal_entry() {
    let mut registry = EthereumNetworks::new();
    registry.insert("mainnet".to_string(), caps(true, false), Arc::new("H1"));
    registry.insert("mainnet".to_string(), caps(false, true), Arc::new("H2"));
    registry.sort();
    let pool = registry.adapters_with_capabilities("mainnet".to_string(), &caps(false, false)).unwrap();
    assert_eq!(pool.adapters.len(), 2);
    let first = pool.adapters[0].capabilities;
    for entry in &pool.adapters {
        assert!(!(first.dominates(&entry.capabilities) && first != entry.capabilities));
    }
    assert_eq!(*pool.adapters[0].adapter, "H1");
    assert_eq!(*pool.adapters[1].adapter, "H2");
    assert_eq!(pool.cheapest().map(|handle| **handle), Some("H1"));
}

#[test]
fn registry_lookup_of_an_unknown_network_fails() {
    let mut registry = EthereumNetworks::new();
    registry.insert("mainnet".to_string(), caps(true, false), Arc::new("H1"));
    registry.insert("mainnet".to_string(), caps(false, true), Arc::new("H2"));
    registry.sort();
    for required in [caps(false, false), caps(true, false), caps(false, true), caps(true, true)] {
        assert_eq!(
            registry.adapters_with_capabilities("rinkeby".to_string(), &required).err(),
            Some(NetworkError::NetworkNotSupported("rinkeby".to_string()))
        );
        assert_eq!(
            registry.adapter_with_capabilities("rinkeby".to_string(), &required).err(),
            Some(NetworkError::NetworkNotSupported("rinkeby".to_string()))
        );
    }
}

#[test]
fn registry_lookup_without_a_dominating_entry_fails() {
    let mut registry = EthereumNetworks::new();
    registry.insert("mainnet".to_string(), caps(true, false), Arc::new("H1"));
    registry.insert("mainnet".to_string(), caps(false, true), Arc::new("H2"));
    assert_eq!(
        registry.adapters_with_capabilities("mainnet".to_string(), &caps(true, true)).err(),
        Some(NetworkError::NoEligibleEndpoint(caps(true, true)))
    );
    assert_eq!(
        registry.adapter_with_capabilities("mainnet".to_string(), &caps(true, true)).err(),
        Some(NetworkError::NoEligibleEndpoint(caps(true, true)))
    );
}

#[test]
fn registry_lookup_selects_by_capability() {
    let mut registry = EthereumNetworks::new();
    registry.insert("mainnet".to_string(), caps(true, false), Arc::new("H1"));
    registry.insert("mainnet".to_string(), caps(false, true), Arc::new("H2"));
    registry.insert("mainnet".to_string(), caps(true, true), Arc::new("H3"));
    let pool = registry.adapters_with_capabilities("mainnet".to_string(), &caps(false, true)).unwrap();
    let handles: Vec<&str> = pool.adapters.iter().map(|entry| *entry.adapter).collect();
    assert_eq!(handles, vec!["H2", "H3"]);
    for _ in 0..100 {
        let chosen = **registry.adapter_with_capabilities("mainnet".to_string(), &caps(true, false)).unwrap();
        assert!(chosen == "H1" || chosen == "H3");
    }
    for _ in 0..20 {
        let chosen = **registry.adapter_with_capabilities("mainnet".to_string(), &caps(true, true)).unwrap();
        assert_eq!(chosen, "H3");
    }
}

#[test]
fn insert_appends_and_keeps_what_was_there() {
    let mut registry = EthereumNetworks::new();
    registry.insert("mainnet".to_string(), caps(true, false), Arc::new("H1"));
    registry.insert("ropsten".to_string(), caps(false, false), Arc::new("R1"));
    registry.insert("mainnet".to_string(), caps(false, true), Arc::new("H2"));
    let mainnet = registry.get(&"mainnet".to_string()).unwrap();
    assert_eq!(mainnet.adapters.len(), 2);
    assert_eq!(*mainnet.adapters[0].adapter, "H1");
    assert_eq!(mainnet.adapters[0].capabilities, caps(true, false));
    assert_eq!(*mainnet.adapters[1].adapter, "H2");
    assert_eq!(mainnet.adapters[1].capabilities, caps(false, true));
    let ropsten = registry.get(&"ropsten".to_string()).unwrap();
    assert_eq!(ropsten.adapters.len(), 1);
    assert_eq!(*ropsten.adapters[0].adapter, "R1");
}

#[test]
fn extend_replaces_the_pool_of_a_shared_name() {
    let mut a = EthereumNetworks::new();
    a.insert("mainnet".to_string(), caps(true, false), Arc::new("A1"));
    a.insert("mainnet".to_string(), caps(false, true), Arc::new("A2"));
    let mut b = EthereumNetworks::new();
    b.insert("mainnet".to_string(), caps(true, true), Arc::new("B1"));
    a.extend(b);
    let mainnet = a.get(&"mainnet".to_string()).unwrap();
    assert_eq!(mainnet.adapters.len(), 1);
    assert_eq!(*mainnet.adapters[0].adapter, "B1");
    assert_eq!(mainnet.adapters[0].capabilities, caps(true, true));
    assert_eq!(flat(&a), vec![("mainnet".to_string(), caps(true, true), "B1")]);
}

#[test]
fn extend_adds_new_names_and_keeps_the_others() {
    let mut a = EthereumNetworks::new();
    a.insert("mainnet".to_string(), caps(true, false), Arc::new("A1"));
    a.insert("kovan".to_string(), caps(false, false), Arc::new("K1"));
    let mut b = EthereumNetworks::new();
    b.insert("ropsten".to_string(), caps(false, true), Arc::new("R1"));
    b.insert("mainnet".to_string(), caps(false, false), Arc::new("B1"));
    b.insert("goerli".to_string(), caps(true, true), Arc::new("G1"));
    a.extend(b);
    assert_eq!(
        flat(&a),
        vec![
            ("mainnet".to_string(), caps(false, false), "B1"),
            ("kovan".to_string(), caps(false, false), "K1"),
            ("ropsten".to_string(), caps(false, true), "R1"),
            ("goerli".to_string(), caps(true, true), "G1"),
        ]
    );
}

#[test]
fn extend_with_an_empty_registry_changes_nothing() {
    let mut a = EthereumNetworks::new();
    a.insert("mainnet".to_string(), caps(true, false), Arc::new("A1"));
    a.extend(EthereumNetworks::new());
    assert_eq!(flat(&a), vec![("mainnet".to_string(), caps(true, false), "A1")]);
    let mut empty = EthereumNetworks::new();
    empty.extend(a);
    assert_eq!(flat(&empty), vec![("mainnet".to_string(), caps(true, false), "A1")]);
}

#[test]
fn flatten_lists_every_provider_with_its_network() {
    let h1 = Arc::new("H1");
    let mut registry = EthereumNetworks::new();
    registry.insert("mainnet".to_string(), caps(true, false), h1.clone());
    registry.insert("ropsten".to_string(), caps(false, false), Arc::new("R1"));
    registry.insert("mainnet".to_string(), caps(false, true), Arc::new("H2"));
    assert_eq!(
        flat(&registry),
        vec![
            ("mainnet".to_string(), caps(true, false), "H1"),
            ("mainnet".to_string(), caps(false, true), "H2"),
            ("ropsten".to_string(), caps(false, false), "R1"),
        ]
    );
    let all = registry.flatten();
    assert!(Arc::ptr_eq(&all[0].2, &h1));
}

#[test]
fn sort_orders_every_pool() {
    let mut registry = EthereumNetworks::new();
    registry.insert("mainnet".to_string(), caps(true, true), Arc::new("M-both"));
    registry.insert("mainnet".to_string(), caps(false, false), Arc::new("M-full"));
    registry.insert("ropsten".to_string(), caps(true, false), Arc::new("R-archive"));
    registry.insert("ropsten".to_string(), caps(true, true), Arc::new("R-both"));
    registry.insert("ropsten".to_string(), caps(false, false), Arc::new("R-full"));
    registry.sort();
    assert_eq!(
        flat(&registry),
        vec![
            ("mainnet".to_string(), caps(false, false), "M-full"),
            ("mainnet".to_string(), caps(true, true), "M-both"),
            ("ropsten".to_string(), caps(false, false), "R-full"),
            ("ropsten".to_string(), caps(true, false), "R-archive"),
            ("ropsten".to_string(), caps(true, true), "R-both"),
        ]
    );
}

#[test]
fn publish_sorts_and_shares() {
    let mut registry = EthereumNetworks::new();
    registry.insert("mainnet".to_string(), caps(true, true), Arc::new("M-both"));
    registry.insert("mainnet".to_string(), caps(false, true), Arc::new("M-traces"));
    let shared = registry.publish();
    let reader = shared.clone();
    assert_eq!(
        flat(&reader),
        vec![
            ("mainnet".to_string(), caps(false, true), "M-traces"),
            ("mainnet".to_string(), caps(true, true), "M-both"),
        ]
    );
    assert_eq!(
        shared.get(&"mainnet".to_string()).and_then(|pool| pool.cheapest()).map(|handle| **handle),
        Some("M-traces")
    );
}

#[test]
fn a_cloned_registry_holds_the_same_providers() {
    let handle = Arc::new("H1");
    let mut registry = EthereumNetworks::new();
    registry.insert("mainnet".to_string(), caps(true, false), handle.clone());
    registry.insert("ropsten".to_string(), caps(false, true), Arc::new("R1"));
    let copy = registry.clone();
    registry.insert("mainnet".to_string(), caps(true, true), Arc::new("H2"));
    assert_eq!(
        flat(&copy),
        vec![
            ("mainnet".to_string(), caps(true, false), "H1"),
            ("ropsten".to_string(), caps(false, true), "R1"),
        ]
    );
    assert!(Arc::ptr_eq(&copy.get(&"mainnet".to_string()).unwrap().adapters[0].adapter, &handle));
    assert_eq!(flat(&registry).len(), 3);
}

#[test]
fn routing_tries_only_the_selected_providers() {
    let mut registry = EthereumNetworks::new();
    registry.insert("mainnet".to_string(), caps(false, false), Arc::new("plain"));
    registry.insert("mainnet".to_string(), caps(true, false), Arc::new("archive-1"));
    registry.insert("mainnet".to_string(), caps(true, true), Arc::new("archive-2"));
    let tried: RefCell<Vec<&'static str>> = RefCell::new(Vec::new());
    let result: Result<u64, RoutingError<String>> =
        registry.run("mainnet".to_string(), &caps(true, false), "op".to_string(), |handle| {
            tried.borrow_mut().push(**handle);
            if **handle == "archive-2" {
                AttemptOutcome::Completed(9)
            } else {
                AttemptOutcome::TimedOut
            }
        });
    assert_eq!(result, Ok(9));
    assert_eq!(*tried.borrow(), vec!["archive-1", "archive-2"]);
}

#[test]
fn routing_fails_before_any_attempt_when_nothing_is_selected() {
    let mut registry = EthereumNetworks::new();
    registry.insert("mainnet".to_string(), caps(false, false), Arc::new("plain"));
    let attempts = RefCell::new(0);
    let result: Result<u64, RoutingError<String>> =
        registry.run("rinkeby".to_string(), &caps(false, false), "op".to_string(), |_| {
            *attempts.borrow_mut() += 1;
            AttemptOutcome::Completed(1)
        });
    assert_eq!(
        result,
        Err(RoutingError::Selection(NetworkError::NetworkNotSupported("rinkeby".to_string())))
    );
    let result: Result<u64, RoutingError<String>> =
        registry.run("mainnet".to_string(), &caps(false, true), "op".to_string(), |_| {
            *attempts.borrow_mut() += 1;
            AttemptOutcome::Completed(1)
        });
    assert_eq!(
        result,
        Err(RoutingError::Selection(NetworkError::NoEligibleEndpoint(caps(false, true))))
    );
    assert_eq!(*attempts.borrow(), 0);
}

#[test]
fn routing_reports_what_the_attempts_came_to() {
    let mut registry = EthereumNetworks::new();
    registry.insert("mainnet".to_string(), caps(true, true), Arc::new("one"));
    registry.insert("mainnet".to_string(), caps(true, true), Arc::new("two"));
    let attempts = RefCell::new(0);
    let result: Result<u64, RoutingError<String>> =
        registry.run("mainnet".to_string(), &caps(true, false), "sync".to_string(), |_| {
            *attempts.borrow_mut() += 1;
            AttemptOutcome::TimedOut
        });
    assert_eq!(result, Err(RoutingError::Call(CallError::AggregateTimeout("sync".to_string()))));
    assert_eq!(*attempts.borrow(), 2);
    let result: Result<u64, RoutingError<String>> =
        registry.run("mainnet".to_string(), &caps(true, false), "sync".to_string(), |handle| {
            AttemptOutcome::Failed(format!("{} is busy", handle))
        });
    assert_eq!(result, Err(RoutingError::Call(CallError::Remote("two is busy".to_string()))));
}
