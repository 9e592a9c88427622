use camera_relay::mdns_discovery::{Advertisement, CameraFinder};
use camera_relay::page::get_html;

const HEAD: &str = "<!DOCTYPE html>\n<html>\n<head>\n<title>Camera Streams</title>\n<style>\ntable { width: 100%; }\ntd { padding: 10px; text-align: center; }\niframe { width: 100%; height: 300px; }\n</style>\n</head>\n<body>\n<h1>Camera Streams</h1>\n<table border=\"1\">\n";
const TAIL: &str = "</table>\n</body>\n</html>\n";

fn cell(url: &str) -> String {
    format!(
        "<td><iframe src =\"{}\" width=\"100%\" height=\"300\"><p>Your browser does not support iframes.</p></iframe></td>\n",
        url
    )
}

fn row(left: &str, right: &str) -> String {
    format!("<tr>\n{}{}</tr>\n", cell(left), cell(right))
}

fn names(list: &[&str]) -> Vec<String> {
    list.iter().map(|s| s.to_string()).collect()
}

fn finder_with(seen: &[(&str, &str, u64)]) -> CameraFinder {
    let mut f =
        CameraFinder::new(names(&["source_1", "source_2", "source_3", "source_4"]), 20_000, 20_000);
    for (name, address, at) in seen {
        let advert =
            Advertisement { fullname: name.to_string(), addresses: vec![address.to_string()] };
        f.record(&advert, *at);
    }
    f
}

#[test]
fn page_without_cameras_has_no_rows() {
    let f = finder_with(&[]);
    assert_eq!(get_html(&f, &Vec::new(), 0), format!("{}{}", HEAD, TAIL));
}

#[test]
fn page_shows_two_cameras_per_row() {
    let f = finder_with(&[
        ("source_1._http._tcp.local.", "192.168.1.41", 0),
        ("source_2._http._tcp.local.", "192.168.1.42", 0),
        ("source_4._http._tcp.local.", "192.168.1.44", 0),
    ]);
    let page = get_html(&f, &names(&["source_1", "source_2", "source_3", "source_4"]), 100);
    let expected = format!(
        "{}{}{}{}",
        HEAD,
        row("http://192.168.1.41/stream", "http://192.168.1.42/stream"),
        row("", "http://192.168.1.44/stream"),
        TAIL
    );
    assert_eq!(page, expected);
}

#[test]
fn page_leaves_stale_and_unknown_cameras_empty() {
    let f = finder_with(&[
        ("source_1._http._tcp.local.", "192.168.1.41", 0),
        ("source_2._http._tcp.local.", "192.168.1.42", 5_000),
    ]);
    let page = get_html(&f, &names(&["source_1", "source_2"]), 20_001);
    let expected = format!("{}{}{}", HEAD, row("", "http://192.168.1.42/stream"), TAIL);
    assert_eq!(page, expected);
}

#[test]
fn page_with_an_odd_number_of_cameras_ends_on_an_empty_cell() {
    let f = finder_with(&[("source_3._http._tcp.local.", "10.0.0.3", 0)]);
    let page = get_html(&f, &names(&["source_1", "source_2", "source_3"]), 0);
    let expected = format!("{}{}{}{}", HEAD, row("", ""), row("http://10.0.0.3/stream", ""), TAIL);
    assert_eq!(page, expected);
}
