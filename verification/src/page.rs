//! Overview page: one framed live view per camera, two to a row.
//!
//! A camera whose address is unknown or stale gets a frame with an empty
//! location rather than an error.

use vstd::prelude::*;
use vstd::string::*;
use crate::mdns_discovery::{CameraFinder, RecordView, resolved, stream_url};

verus! {

/// The text before the table rows.
pub open spec fn page_head() -> Seq<char> {
    "<!DOCTYPE html>\n<html>\n<head>\n<title>Camera Streams</title>\n<style>\ntable { width: 100%; }\ntd { padding: 10px; text-align: center; }\niframe { width: 100%; height: 300px; }\n</style>\n</head>\n<body>\n<h1>Camera Streams</h1>\n<table border=\"1\">\n"@
}

/// The text after the table rows.
pub open spec fn page_tail() -> Seq<char> {
    "</table>\n</body>\n</html>\n"@
}

/// The table cell that frames the view at `url`.
pub open spec fn cell_text(url: Seq<char>) -> Seq<char> {
    "<td><iframe src =\""@ + url
        + "\" width=\"100%\" height=\"300\"><p>Your browser does not support iframes.</p></iframe></td>\n"@
}

/// A table row of two cells.
pub open spec fn row_text(left: Seq<char>, right: Seq<char>) -> Seq<char> {
    "<tr>\n"@ + cell_text(left) + cell_text(right) + "</tr>\n"@
}

/// The location at position `i`, or none where the list ends before it.
pub open spec fn url_at(urls: Seq<Seq<char>>, i: int) -> Seq<char> {
    if 0 <= i < urls.len() {
        urls[i]
    } else {
        Seq::empty()
    }
}

/// The first `rows` table rows: row `r` shows the locations at positions
/// `2r` and `2r + 1`.
pub open spec fn rows_text(urls: Seq<Seq<char>>, rows: int) -> Seq<char>
    decreases rows,
{
    if rows <= 0 {
        Seq::empty()
    } else {
        rows_text(urls, rows - 1) + row_text(
            url_at(urls, 2 * (rows - 1)),
            url_at(urls, 2 * (rows - 1) + 1),
        )
    }
}

/// How many rows it takes to show `count` cameras.
pub open spec fn row_count(count: int) -> int {
    (count + 1) / 2
}

/// The whole page for the given locations.
pub open spec fn page_text(urls: Seq<Seq<char>>) -> Seq<char> {
    page_head() + rows_text(urls, row_count(urls.len() as int)) + page_tail()
}

/// The location shown for `name` at tick `now`: its stream location while
/// its record is fresh, and nothing otherwise.
pub open spec fn shown_url(
    records: Map<Seq<char>, RecordView>,
    name: Seq<char>,
    now: u64,
    window: u64,
) -> Seq<char> {
    match resolved(records, name, now, window) {
        Some(address) => stream_url(address),
        None => Seq::empty(),
    }
}

/// The locations shown for `names`, in order.
pub open spec fn shown_urls(
    records: Map<Seq<char>, RecordView>,
    names: Seq<String>,
    now: u64,
    window: u64,
) -> Seq<Seq<char>> {
    Seq::new(names.len(), |i: int| shown_url(records, names[i]@, now, window))
}

/// Appends the cell for the camera at position `i` of `names`, or an empty
/// cell where the list ends before `i`.
fn push_cell(page: &mut String, finder: &CameraFinder, names: &Vec<String>, i: usize, now: u64)
    requires
        finder.wf(),
    ensures
        final(page)@ == old(page)@ + cell_text(
            url_at(shown_urls(finder.records(), names@, now, finder.window()), i as int),
        ),
{
    let url = if i < names.len() {
        match finder.get_camera_url(names[i].as_str(), now) {
            Some(u) => u,
            None => String::new(),
        }
    } else {
        String::new()
    };
    page.append("<td><iframe src =\"");
    page.append(url.as_str());
    page.append(
        "\" width=\"100%\" height=\"300\"><p>Your browser does not support iframes.</p></iframe></td>\n",
    );
    assert(page@ =~= old(page)@ + cell_text(url@));
}

/// Renders the overview page for the cameras `names` at tick `now`.
pub fn get_html(finder: &CameraFinder, names: &Vec<String>, now: u64) -> (r: String)
    requires
        finder.wf(),
    ensures
        r@ == page_text(shown_urls(finder.records(), names@, now, finder.window())),
{
    let ghost urls = shown_urls(finder.records(), names@, now, finder.window());
    let mut page = String::from_str(
        "<!DOCTYPE html>\n<html>\n<head>\n<title>Camera Streams</title>\n<style>\ntable { width: 100%; }\ntd { padding: 10px; text-align: center; }\niframe { width: 100%; height: 300px; }\n</style>\n</head>\n<body>\n<h1>Camera Streams</h1>\n<table border=\"1\">\n",
    );
    let n: usize = names.len();
    let rows: usize = n / 2 + n % 2;
    let mut r: usize = 0;
    while r < rows
        invariant
            finder.wf(),
            n == names@.len(),
            rows == row_count(n as int),
            r <= rows,
            urls == shown_urls(finder.records(), names@, now, finder.window()),
            page@ == page_head() + rows_text(urls, r as int),
        decreases rows - r,
    {
        let ghost before = page@;
        page.append("<tr>\n");
        push_cell(&mut page, finder, names, 2 * r, now);
        if 2 * r < n - 1 {
            push_cell(&mut page, finder, names, 2 * r + 1, now);
        } else {
            push_cell(&mut page, finder, names, n, now);
        }
        page.append("</tr>\n");
        r += 1;
        assert(page@ =~= before + row_text(url_at(urls, 2 * (r - 1)), url_at(urls, 2 * (r - 1) + 1)));
        assert(page@ =~= page_head() + rows_text(urls, r as int));
    }
    page.append("</table>\n</body>\n</html>\n");
    page
}

} // verus!
