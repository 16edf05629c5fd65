use rust_chat::client::ClientStop;
use rust_chat::monitoring::Monitoring;
use rust_chat::monitoring::MonitoringStats;
use rust_chat::server_stop::ServerStop;
use rust_chat::server_stop::ServerThreadStop;

#[test]
fn counters_track_window_and_total() {
    let mut s = MonitoringStats::new();
    s.new_connection();
    s.new_connection();
    s.lost_connection();
    s.bytes_read(100);
    s.bytes_send(40);
    s.message_received();
    s.messege_send();
    assert_eq!(s.new_connections, 2);
    assert_eq!(s.total_new_connections, 2);
    assert_eq!(s.lost_connections, 1);
    assert_eq!(s.bytes_read, 100);
    assert_eq!(s.bytes_send, 40);
    assert_eq!(s.messages_received, 1);
    assert_eq!(s.messeges_send, 1);

    s.reset_window();
    assert_eq!(s.new_connections, 0);
    assert_eq!(s.bytes_read, 0);
    // totals survive the reset
    assert_eq!(s.total_new_connections, 2);
    assert_eq!(s.total_bytes_read, 100);
}

#[test]
fn counters_saturate_at_the_machine_limit() {
    let mut s = MonitoringStats::new();
    s.bytes_read(usize::MAX);
    s.bytes_read(1);
    assert_eq!(s.bytes_read, usize::MAX);
    assert_eq!(s.total_bytes_read, usize::MAX);
}

#[test]
fn aggregate_sums_over_threads() {
    let mut m = Monitoring::new(30_000);
    assert_eq!(m.interval_millis(), 30_000);
    let a = m.get_new_stats();
    let b = m.get_new_stats();
    assert_eq!((a, b), (0, 1));

    let mut sa = MonitoringStats::new();
    sa.new_connection();
    sa.bytes_read(10);
    let mut sb = MonitoringStats::new();
    sb.new_connection();
    sb.new_connection();
    sb.bytes_read(5);
    sb.lost_connection();
    m.set_stats(a, sa);
    m.set_stats(b, sb);

    let totals = m.aggregate();
    assert_eq!(totals.new_connections, 3);
    assert_eq!(totals.total_new_connections, 3);
    assert_eq!(totals.bytes_read, 15);
    assert_eq!(totals.lost_connections, 1);
    assert_eq!(totals.messeges_send, 0);
}

#[test]
fn aggregate_saturates() {
    let mut m = Monitoring::new(1);
    let a = m.get_new_stats();
    let b = m.get_new_stats();
    let mut sa = MonitoringStats::new();
    sa.bytes_send(usize::MAX);
    let mut sb = MonitoringStats::new();
    sb.bytes_send(7);
    m.set_stats(a, sa);
    m.set_stats(b, sb);
    assert_eq!(m.aggregate().bytes_send, usize::MAX);
}

#[test]
fn server_stop_sets_every_thread_flag() {
    let mut flags: Vec<ServerThreadStop> = Vec::new();
    for _ in 0..4 {
        let f = ServerThreadStop::new();
        assert!(!f.should_stop());
        flags.push(f);
    }
    let mut stop = ServerStop::new(flags);
    assert!(!stop.all_stopped());
    stop.stop();
    assert!(stop.all_stopped());
    // a second stop is harmless
    stop.stop();
    assert!(stop.all_stopped());
}

#[test]
fn thread_stop_flag_stays_set() {
    let mut f = ServerThreadStop::new();
    assert!(!f.should_stop());
    f.stop();
    assert!(f.should_stop());
    f.stop();
    assert!(f.should_stop());
}

#[test]
fn client_stop_flag_works() {
    let mut f = ClientStop::new();
    assert!(!f.should_stop());
    f.stop();
    assert!(f.should_stop());
}
