use latency_probe::batching::batch_ips;
use latency_probe::batching::geolocated_record;
use latency_probe::batching::ips_of;
use latency_probe::lookup::find_city;
use latency_probe::records::record_with_ip;
use latency_probe::records::Record;
use latency_probe::records::RecordWithIp;
use latency_probe::urls::clean_url;

#[test]
fn clean_url_strips_scheme_and_slashes() {
    assert_eq!(clean_url("http://example.com/"), "example.com");
    assert_eq!(clean_url("https://example.com"), "example.com");
    assert_eq!(clean_url("https://a.b/c/d"), "a.bcd");
    assert_eq!(clean_url("example.com"), "example.com");
    assert_eq!(clean_url(""), "");
}

#[test]
fn clean_url_removes_every_occurrence() {
    assert_eq!(clean_url("xhttp://y"), "xy");
    assert_eq!(clean_url("http://http://double"), "double");
    assert_eq!(clean_url("a//b/"), "ab");
}

#[test]
fn record_with_ip_copies_the_record_verbatim() {
    let r = Record { name: "site".to_string(), url: "http://site.example/".to_string() };
    let with_ip = record_with_ip(&r, "203.0.113.9".to_string());
    assert_eq!(with_ip.name, "site");
    assert_eq!(with_ip.url, "http://site.example/");
    assert_eq!(with_ip.ip, "203.0.113.9");
}

#[test]
fn batching_cuts_in_order_with_a_short_last_batch() {
    let ips: Vec<String> = ["a", "b", "c", "d", "e"].iter().map(|s| s.to_string()).collect();
    let batches = batch_ips(&ips, 2);
    assert_eq!(batches.len(), 3);
    assert_eq!(batches[0], vec!["a".to_string(), "b".to_string()]);
    assert_eq!(batches[1], vec!["c".to_string(), "d".to_string()]);
    assert_eq!(batches[2], vec!["e".to_string()]);
}

#[test]
fn batching_handles_small_and_empty_inputs() {
    let none: Vec<String> = Vec::new();
    assert!(batch_ips(&none, 500).is_empty());
    let two: Vec<String> = vec!["a".to_string(), "b".to_string()];
    let batches = batch_ips(&two, 500);
    assert_eq!(batches.len(), 1);
    assert_eq!(batches[0], two);
}

#[test]
fn ips_of_lists_addresses_in_order() {
    let records = vec![
        RecordWithIp { name: "x".to_string(), url: "u".to_string(), ip: "10.0.0.1".to_string() },
        RecordWithIp { name: "y".to_string(), url: "v".to_string(), ip: "10.0.0.2".to_string() },
    ];
    assert_eq!(ips_of(&records), vec!["10.0.0.1".to_string(), "10.0.0.2".to_string()]);
}

#[test]
fn geolocated_record_copies_both_fields() {
    let r = geolocated_record(&"10.0.0.1".to_string(), &"Cologne".to_string());
    assert_eq!(r.ip, "10.0.0.1");
    assert_eq!(r.location, "Cologne");
}

#[test]
fn find_city_returns_the_first_match() {
    let names: Vec<String> =
        ["Aachen", "Berlin", "Cologne", "Berlin"].iter().map(|s| s.to_string()).collect();
    assert_eq!(find_city(&names, &"Berlin".to_string()), Some(1));
    assert_eq!(find_city(&names, &"Aachen".to_string()), Some(0));
    assert_eq!(find_city(&names, &"Dresden".to_string()), None);
    let empty: Vec<String> = Vec::new();
    assert_eq!(find_city(&empty, &"Berlin".to_string()), None);
}
