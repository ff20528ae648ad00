use port_knocker::addr::SocketAddress;
use port_knocker::scheduler::{SchedAction, KnockScheduler};
use port_knocker::jitter::{jittered_delay_ms, knock_delay_ms};
use port_knocker::resolve::check_resolved;
use port_knocker::retry::{classify, AttemptOutcome, RetryAction, RetryPolicy};
use port_knocker::udp::{
    datagram_body, ephemeral_port_from, pick_ephemeral_port, plan_udp_knock, plan_udp_knock_with,
    udp_target,
};
use port_knocker::AppError;

fn v4(ip: u32, port: u16) -> SocketAddress {
    SocketAddress::V4 { ip, port }
}

#[test]
fn sched_admits_all_in_order_with_bound() {
    let mut g = KnockScheduler::new(vec![1, 2, 3, 4, 5], 2);
    let mut started = Vec::new();
    let mut max_in_flight = 0;
    loop {
        match g.next_action() {
            SchedAction::Start(p) => started.push(p),
            SchedAction::AwaitCompletion => g.completed(),
            SchedAction::Finished => break,
            SchedAction::Cancelled => panic!("not cancelled"),
        }
        max_in_flight = max_in_flight.max(g.in_flight());
    }
    assert_eq!(started, vec![1, 2, 3, 4, 5]);
    assert_eq!(g.admitted(), 5);
    assert_eq!(max_in_flight, 2);
}

#[test]
fn sched_empty_sequence_finishes() {
    let mut g = KnockScheduler::new(vec![], 3);
    assert!(matches!(g.next_action(), SchedAction::Finished));
}

#[test]
fn sched_duplicates_kept() {
    let mut g = KnockScheduler::new(vec![9, 9], 1);
    assert!(matches!(g.next_action(), SchedAction::Start(9)));
    assert!(matches!(g.next_action(), SchedAction::AwaitCompletion));
    g.completed();
    assert!(matches!(g.next_action(), SchedAction::Start(9)));
}

#[test]
fn tcp_two_ports_concurrently() {
    let mut g = KnockScheduler::new(vec![7000, 8000], 2);
    assert!(matches!(g.next_action(), SchedAction::Start(7000)));
    assert!(matches!(g.next_action(), SchedAction::Start(8000)));
    assert_eq!(g.in_flight(), 2);
    let p = RetryPolicy::new(1, 500, 100);
    // 7000 is closed: the only attempt fails and the knock ends.
    let closed = p.after::<()>(1, classify(Some(Ok(false))));
    assert!(matches!(closed[..], [RetryAction::Finish(Ok(()))]));
    // 8000 is open.
    let open = p.after::<()>(1, classify(Some(Ok(true))));
    assert!(matches!(open[..], [RetryAction::Finish(Ok(()))]));
    let timed_out = p.after::<()>(1, AttemptOutcome::TimedOut);
    assert!(matches!(timed_out[..], [RetryAction::ReportTimeout(1), RetryAction::Finish(Ok(()))]));
}

#[test]
fn cancel_with_queued_knocks() {
    let mut g = KnockScheduler::new(vec![1000, 2000, 3000], 1);
    assert!(matches!(g.next_action(), SchedAction::Start(1000)));
    assert!(matches!(g.next_action(), SchedAction::AwaitCompletion));
    g.cancel();
    for _ in 0..3 {
        assert!(matches!(g.next_action(), SchedAction::Cancelled));
    }
    assert_eq!(g.admitted(), 1);
    assert_eq!(g.in_flight(), 1);
}

#[test]
fn jitter_exact_values() {
    assert_eq!(jittered_delay_ms(0, 12345), 0);
    assert_eq!(jittered_delay_ms(100, 0), 100);
    assert_eq!(jittered_delay_ms(100, 99), 199);
    assert_eq!(jittered_delay_ms(100, 100), 100);
    assert_eq!(jittered_delay_ms(100, 250), 150);
    assert_eq!(jittered_delay_ms(u64::MAX, u64::MAX - 1), u64::MAX);
}

#[test]
fn jitter_drawn_in_bounds() {
    assert_eq!(knock_delay_ms(0), 0);
    for _ in 0..200 {
        let d = knock_delay_ms(40);
        assert!((40..80).contains(&d));
    }
    assert_eq!(knock_delay_ms(1), 1);
}

#[test]
fn ephemeral_ports() {
    assert_eq!(ephemeral_port_from(0), 32768);
    assert_eq!(ephemeral_port_from(28231), 60999);
    assert_eq!(ephemeral_port_from(28232), 32768);
    assert_eq!(ephemeral_port_from(u32::MAX), 32768 + (u32::MAX % 28232) as u16);
    for _ in 0..200 {
        let p = pick_ephemeral_port();
        assert!((32768..=60999).contains(&p));
    }
}

#[test]
fn udp_without_addresses_fails() {
    assert!(matches!(udp_target(&vec![], 53), Err(AppError::NoDns)));
    assert!(matches!(plan_udp_knock(&vec![], 53, &None), Err(AppError::NoDns)));
    assert!(matches!(check_resolved(vec![]), Err(AppError::NoDns)));
}

#[test]
fn udp_target_takes_first_address() {
    let addrs = vec![v4(0x7f000001, 0), v4(0x0a000001, 0)];
    assert_eq!(udp_target(&addrs, 9000).unwrap(), v4(0x7f000001, 9000));
    let six = vec![SocketAddress::V6 { ip: 1, port: 0, flowinfo: 3, scope_id: 4 }];
    assert_eq!(
        udp_target(&six, 53).unwrap(),
        SocketAddress::V6 { ip: 1, port: 53, flowinfo: 3, scope_id: 4 }
    );
    assert_eq!(check_resolved(addrs.clone()).unwrap(), addrs);
}

#[test]
fn udp_plan_deadbeef() {
    let addrs = vec![v4(0x7f000001, 0)];
    let payload = Some(vec![0xde, 0xad, 0xbe, 0xef]);
    let plan = plan_udp_knock_with(&addrs, 7000, &payload, 5).unwrap();
    assert_eq!(plan.target, v4(0x7f000001, 7000));
    assert_eq!(plan.bind, v4(0, 32773));
    assert_eq!(plan.body, vec![0xde, 0xad, 0xbe, 0xef]);
    let six = vec![SocketAddress::V6 { ip: 1, port: 0, flowinfo: 0, scope_id: 0 }];
    let plan6 = plan_udp_knock(&six, 7000, &None).unwrap();
    assert!(plan6.bind.is_ipv6());
    assert!(plan6.body.is_empty());
    assert!((32768..=60999).contains(&plan6.bind.port()));
}

#[test]
fn datagram_body_verbatim() {
    assert_eq!(datagram_body(&Some(vec![1, 2, 3])), vec![1, 2, 3]);
    assert_eq!(datagram_body(&None), Vec::<u8>::new());
}
