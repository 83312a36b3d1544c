use chat_core::model::SocketResponse;
use chat_core::pagination::{page_skip, paginate};

fn row(name: &str) -> SocketResponse {
    SocketResponse {
        id: "id".to_string(),
        socket: "sock".to_string(),
        username: name.to_string(),
        created_at: 0,
        updated_at: 0,
    }
}

#[test]
fn skip_counts_the_pages_before_the_current_one() {
    assert_eq!(page_skip(10, 1), 0);
    assert_eq!(page_skip(10, 2), 10);
    assert_eq!(page_skip(7, 4), 21);
}

#[test]
fn a_middle_page_links_both_ways() {
    let data = vec![row("a"), row("b")];
    let page = paginate(data, 10, 2, 35);
    assert_eq!(page.curr_page, 2);
    assert_eq!(page.prev_page, Some(1));
    assert_eq!(page.next_page, Some(3));
    assert_eq!(page.total_pages, 3);
    assert_eq!(page.total_records, 35);
    assert_eq!(page.data.len(), 2);
    assert_eq!(page.data[0].username, "a");
}

#[test]
fn the_first_page_of_nothing_links_nowhere() {
    let data: Vec<SocketResponse> = Vec::new();
    let page = paginate(data, 10, 1, 0);
    assert_eq!(page.curr_page, 1);
    assert_eq!(page.prev_page, None);
    assert_eq!(page.next_page, None);
    assert_eq!(page.total_pages, 0);
    assert_eq!(page.total_records, 0);
}

#[test]
fn one_straggler_past_the_window_is_not_enough_for_a_next_page() {
    // A further page is advertised only when more than one record lies
    // beyond the current window.
    let exactly_one_more = paginate(Vec::<SocketResponse>::new(), 10, 1, 11);
    assert_eq!(exactly_one_more.next_page, None);
    let two_more = paginate(Vec::<SocketResponse>::new(), 10, 1, 12);
    assert_eq!(two_more.next_page, Some(2));
}
