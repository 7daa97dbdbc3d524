use notetui::layout::{rows, Area};

#[test]
fn header_and_footer_take_one_row_each() {
    for height in (3u16..200).chain([1000, 30000, 65535]) {
        for (x, y) in [(0u16, 0u16), (3, 7)] {
            if height > u16::MAX - y {
                continue;
            }
            let r = rows(Area { x, y, width: 50, height });
            assert_eq!(r.header, Area { x, y, width: 50, height: 1 });
            assert_eq!(r.timeline, Area { x, y: y + 1, width: 50, height: height - 2 });
            assert_eq!(r.footer, Area { x, y: y + height - 1, width: 50, height: 1 });
        }
    }
}

#[test]
fn few_rows_go_to_the_timeline_first() {
    // Areas that differ are solved anew, each time with another hash seed.
    for width in 1u16..200 {
        for (height, y) in [(0u16, 1u16), (1, 0), (1, 7), (2, 0), (2, 7)] {
            let r = rows(Area { x: 2, y, width, height });
            for part in [r.header, r.timeline, r.footer] {
                assert_eq!((part.x, part.width), (2, width));
                assert!(y <= part.y && part.y + part.height <= y + height);
            }
            assert_eq!(r.header.y, y);
            assert_eq!(r.timeline.y, r.header.y + r.header.height);
            assert_eq!(r.footer.y, r.timeline.y + r.timeline.height);
            assert_eq!(r.header.height + r.timeline.height + r.footer.height, height);
            assert_eq!(r.timeline.height, height.min(1));
        }
    }
}
