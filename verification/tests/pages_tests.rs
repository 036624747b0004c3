use card_sheets::canvas::Canvas;
use card_sheets::grid::{map_slot, Grid, SHEET_HEIGHT, SHEET_WIDTH};
use card_sheets::pages::PageSet;
use image::{Rgb, RgbImage};

fn solid_card(w: u32, h: u32, color: [u8; 3]) -> Canvas {
    Canvas { img: RgbImage::from_pixel(w, h, Rgb(color)) }
}

#[test]
fn five_images_fill_two_pages() {
    let g = Grid::compute(63, 88).unwrap();
    let mut entries: Vec<Option<Canvas>> = Vec::new();
    for _ in 0..5 {
        entries.push(Some(solid_card(10, 10, [0, 0, 0])));
    }
    let set = PageSet::compose_all(&g, &entries);
    // 10 placements at 6 per page
    assert_eq!(set.num_pages(), 2);
    let pages = set.into_pages();
    assert_eq!(pages.len(), 2);
    assert_eq!(pages[0].img.width(), SHEET_WIDTH);
    assert_eq!(pages[0].img.height(), SHEET_HEIGHT);
    assert_eq!(pages[1].img.width(), SHEET_WIDTH);
    assert_eq!(pages[1].img.height(), SHEET_HEIGHT);
}

#[test]
fn zero_images_zero_pages() {
    let g = Grid::compute(63, 88).unwrap();
    let empty: Vec<Option<Canvas>> = Vec::new();
    let set = PageSet::compose_all(&g, &empty);
    assert_eq!(set.num_pages(), 0);
    assert_eq!(set.into_pages().len(), 0);
    let skipped: Vec<Option<Canvas>> = vec![None, None, None];
    let set2 = PageSet::compose_all(&g, &skipped);
    assert_eq!(set2.num_pages(), 0);
    assert_eq!(set2.into_pages().len(), 0);
}

#[test]
fn skipped_entries_shift_no_slot() {
    let g = Grid::compute(63, 88).unwrap();
    let with_skip: Vec<Option<Canvas>> = vec![
        Some(solid_card(4, 4, [10, 20, 30])),
        None,
        Some(solid_card(4, 4, [40, 50, 60])),
    ];
    let without_skip: Vec<Option<Canvas>> = vec![
        Some(solid_card(4, 4, [10, 20, 30])),
        Some(solid_card(4, 4, [40, 50, 60])),
    ];
    let pages_a = PageSet::compose_all(&g, &with_skip).into_pages();
    let pages_b = PageSet::compose_all(&g, &without_skip).into_pages();
    assert_eq!(pages_a.len(), 1);
    assert_eq!(pages_b.len(), 1);
    // the second image sits on slots 2 and 3 in both runs
    let p2 = map_slot(&g, 2);
    let p3 = map_slot(&g, 3);
    for pages in [&pages_a, &pages_b] {
        assert_eq!(*pages[0].img.get_pixel(p2.x, p2.y), Rgb([40, 50, 60]));
        assert_eq!(*pages[0].img.get_pixel(p3.x, p3.y), Rgb([40, 50, 60]));
    }
}

#[test]
fn ensure_page_twice_keeps_count() {
    let mut set = PageSet::new();
    set.ensure_page(3);
    assert_eq!(set.num_pages(), 4);
    set.ensure_page(3);
    assert_eq!(set.num_pages(), 4);
    set.ensure_page(1);
    assert_eq!(set.num_pages(), 4);
    set.ensure_page(5);
    assert_eq!(set.num_pages(), 6);
}

#[test]
fn composite_places_pixels_and_grows_pages() {
    let g = Grid::compute(63, 88).unwrap();
    let card = solid_card(8, 8, [1, 2, 3]);
    let mut set = PageSet::new();
    // slot 13 lies on page 2: pages 0, 1 and 2 must all exist afterwards
    set.composite(&g, 13, &card);
    assert_eq!(set.num_pages(), 3);
    let p = map_slot(&g, 13);
    assert_eq!(p.page, 2);
    let pages = set.into_pages();
    // the card's pixels landed at the resolved position of its page...
    assert_eq!(*pages[2].img.get_pixel(p.x, p.y), Rgb([1, 2, 3]));
    assert_eq!(*pages[2].img.get_pixel(p.x + 7, p.y + 7), Rgb([1, 2, 3]));
    // ...and nowhere else: other pages and the rest of the page stay white
    assert_eq!(*pages[0].img.get_pixel(p.x, p.y), Rgb([255, 255, 255]));
    assert_eq!(*pages[1].img.get_pixel(p.x, p.y), Rgb([255, 255, 255]));
    assert_eq!(*pages[2].img.get_pixel(p.x + 8, p.y + 8), Rgb([255, 255, 255]));
    assert_eq!(*pages[2].img.get_pixel(0, 0), Rgb([255, 255, 255]));
}

#[test]
fn composite_clips_at_the_sheet_edge() {
    // a card larger than its cell still composites without fault, clipped
    let g = Grid::compute(63, 88).unwrap();
    let card = solid_card(SHEET_WIDTH, SHEET_HEIGHT, [9, 9, 9]);
    let mut set = PageSet::new();
    set.composite(&g, 5, &card);
    assert_eq!(set.num_pages(), 1);
    let p = map_slot(&g, 5);
    let pages = set.into_pages();
    assert_eq!(*pages[0].img.get_pixel(p.x, p.y), Rgb([9, 9, 9]));
    assert_eq!(*pages[0].img.get_pixel(SHEET_WIDTH - 1, SHEET_HEIGHT - 1), Rgb([9, 9, 9]));
    assert_eq!(*pages[0].img.get_pixel(0, 0), Rgb([255, 255, 255]));
}
