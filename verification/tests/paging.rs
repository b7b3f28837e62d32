use activity_summary::paging::{reversed, Page, PagedSequence, Pull};

fn page(from: u32, count: u32, next: Option<&str>) -> Page<u32> {
    Page { items: (from..from + count).collect(), next: next.map(|t| t.to_string()) }
}

#[test]
fn three_pages_yield_every_item_and_then_end() {
    let mut later = vec![page(50, 7, None), page(25, 25, Some("page-3"))];
    let mut sequence = PagedSequence::open(page(0, 25, Some("page-2")));
    let mut seen: Vec<u32> = Vec::new();
    let mut asked: Vec<String> = Vec::new();
    let mut ends = 0;
    while ends == 0 {
        match sequence.pull() {
            Pull::Item(x) => seen.push(x),
            Pull::NeedPage(token) => {
                asked.push(token);
                sequence.feed(later.pop().unwrap());
            }
            Pull::Done => ends += 1,
        }
    }
    assert_eq!(seen.len(), 57);
    assert_eq!(seen, (0..57).collect::<Vec<u32>>());
    assert_eq!(asked, vec!["page-2".to_string(), "page-3".to_string()]);
    assert_eq!(ends, 1);
    assert_eq!(sequence.buffered(), 0);
    assert_eq!(sequence.pull(), Pull::Done);
}

#[test]
fn an_empty_page_with_a_token_asks_for_the_next() {
    let mut sequence = PagedSequence::open(page(0, 0, Some("more")));
    assert_eq!(sequence.pull(), Pull::NeedPage("more".to_string()));
    assert_eq!(sequence.pull(), Pull::NeedPage("more".to_string()));
    sequence.feed(page(3, 1, None));
    assert_eq!(sequence.buffered(), 1);
    assert_eq!(sequence.pull(), Pull::Item(3));
    assert_eq!(sequence.pull(), Pull::Done);
}

#[test]
fn an_empty_result_ends_at_once() {
    let mut sequence = PagedSequence::open(page(0, 0, None));
    assert_eq!(sequence.pull(), Pull::Done);
}

#[test]
fn a_page_fed_early_follows_what_is_left() {
    let mut sequence = PagedSequence::open(page(0, 2, Some("t")));
    sequence.feed(page(2, 2, None));
    let mut seen = Vec::new();
    while let Pull::Item(x) = sequence.pull() {
        seen.push(x);
    }
    assert_eq!(seen, vec![0, 1, 2, 3]);
}

#[test]
fn reversed_turns_the_order_round() {
    assert_eq!(reversed(vec![1, 2, 3]), vec![3, 2, 1]);
    assert_eq!(reversed(Vec::<u8>::new()), Vec::<u8>::new());
}
