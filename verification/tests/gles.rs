use mechanix::gles::{array_of, levels, runs, Array, Budget, Cell, Class, Device, Error, Pages, Refused, Run};

#[test]
fn the_budget_defaults_to_four_and_two() {
    assert_eq!(
        Budget::default(),
        Budget {
            mono_pages: 4,
            color_pages: 2
        }
    );
}

#[test]
fn the_device_opens_a_gles3_context_or_reports_there_is_none() {
    match Device::try_open(Budget::default(), Err(Error::NoDevice)) {
        Ok(d) => assert!(
            d.version().starts_with("OpenGL ES 3."),
            "not a GLES 3 context: {}",
            d.version()
        ),
        Err(Error::NoDevice) => println!("skip: no render node"),
        Err(e) => panic!("the device did not open: {e:?}"),
    }
    let d = Device::try_open(Budget::default(), Ok("OpenGL ES 3.2 Mesa 24.0".to_string()))
        .expect("a GLES 3 context opens");
    assert!(d.version().starts_with("OpenGL ES 3."));
}

#[test]
fn a_context_that_is_not_gles3_is_refused_by_name() {
    match Device::try_open(Budget::default(), Ok("OpenGL ES 2.0".to_string())) {
        Err(Error::Setup(m)) => {
            assert_eq!(m, "the context is OpenGL ES 2.0, GLES 3.0 is required")
        }
        other => panic!("{other:?}"),
    }
    match Device::try_open(Budget::default(), Err(Error::Setup("eglInitialize: x".into()))) {
        Err(Error::Setup(m)) => assert_eq!(m, "eglInitialize: x"),
        other => panic!("{other:?}"),
    }
}

#[test]
fn a_device_keeps_its_budget_and_version() {
    let budget = Budget {
        mono_pages: 1,
        color_pages: 9,
    };
    let d = Device::open(budget, Ok("OpenGL ES 3.0".to_string()));
    assert_eq!(d.budget(), budget);
    assert_eq!(d.version(), "OpenGL ES 3.0");
}

fn cell(page: u32, row: u8, col: u8) -> Cell {
    Cell {
        page,
        layer: 0,
        row,
        col,
    }
}

#[test]
fn dirty_cells_go_up_as_row_runs() {
    // A new page: every cell dirty, 16 rows of 16, one run a row.
    let mut all = Vec::new();
    for row in 0..16u8 {
        for col in 0..16u8 {
            all.push(cell(0, row, col));
        }
    }
    let r = runs(&all);
    assert_eq!(r.len(), 16);
    assert!(r.iter().all(|run| run.col == 0 && run.count == 16));
    // A second strip beside the first on the same shelf: one run in row 0.
    let r = runs(&[cell(0, 0, 4), cell(0, 0, 5), cell(0, 0, 6), cell(0, 0, 7)]);
    assert_eq!(
        r,
        vec![Run {
            page: 0,
            layer: 0,
            row: 0,
            col: 4,
            count: 4
        }]
    );
    // Nothing dirty: nothing uploaded.
    assert!(runs(&[]).is_empty());
}

#[test]
fn a_gap_another_row_or_another_page_starts_a_run() {
    let r = runs(&[cell(0, 0, 0), cell(0, 0, 2), cell(0, 1, 3), cell(1, 1, 4)]);
    assert_eq!(r.len(), 4);
    assert!(r.iter().all(|run| run.count == 1));
}

#[test]
fn a_page_past_the_budget_is_refused_with_the_class_named() {
    let mut p = Pages::new(Budget {
        mono_pages: 1,
        color_pages: 1,
    });
    assert_eq!(p.refusal(0, Class::Image), None);
    assert_eq!(p.add(0, Class::Image, 2), 0);
    assert_eq!(
        p.refusal(1, Class::Image),
        Some(Refused::Spent {
            array: Array::Color,
            budget: 1,
            class: Class::Image
        })
    );
    assert!(!p.has(1));
    assert_eq!(p.refusal(1, Class::Glyph), None, "the mono array has its own budget");
    assert_eq!(p.add(1, Class::Glyph, 0), 0);
    assert_eq!(
        p.refusal(2, Class::Icon),
        Some(Refused::Spent {
            array: Array::Mono,
            budget: 1,
            class: Class::Icon
        })
    );
}

#[test]
fn a_page_id_is_looked_up_even_when_pages_of_both_kinds_interleave() {
    let mut p = Pages::new(Budget::default());
    assert_eq!(p.add(0, Class::Glyph, 0), 0);
    assert_eq!(p.add(1, Class::Image, 2), 0);
    assert_eq!(p.add(5, Class::Icon, 1), 1);
    assert_eq!(p.layer(1), Some((Class::Image, 0)));
    assert_eq!(p.layer(5), Some((Class::Icon, 1)));
    assert_eq!(p.layer(3), None);
    assert_eq!(p.table()[1], (2 << 8) | 0);
    assert_eq!(p.table()[5], (1 << 8) | 1);
    assert_eq!(p.table().len(), 256);
    assert_eq!(
        p.refusal(256, Class::Glyph),
        Some(Refused::PastTable { id: 256 })
    );
}

#[test]
fn an_image_run_takes_five_uploads_and_a_glyph_run_one() {
    let mut p = Pages::new(Budget::default());
    assert_eq!(p.add(0, Class::Image, 2), 0);
    // A new image page: every cell of its 16 rows dirty, one run a row,
    // five levels each.
    let mut all = Vec::new();
    for row in 0..16u8 {
        for col in 0..16u8 {
            all.push(cell(0, row, col));
        }
    }
    assert_eq!(p.uploads(&all), 16 * 5);
    // A second strip beside the first, in row 0: one run, five levels.
    let strip = [cell(0, 0, 4), cell(0, 0, 5), cell(0, 0, 6), cell(0, 0, 7)];
    assert_eq!(p.uploads(&all) + p.uploads(&strip), 16 * 5 + 5);
    // Nothing dirty: nothing uploaded.
    assert_eq!(p.uploads(&[]), 0);
    // A glyph page's run goes up at one level; an icon's at five.
    assert_eq!(p.add(1, Class::Glyph, 0), 0);
    assert_eq!(p.add(2, Class::Icon, 1), 1);
    assert_eq!(p.uploads(&[cell(1, 0, 0), cell(1, 0, 1)]), 1);
    assert_eq!(p.uploads(&[cell(2, 3, 0), cell(1, 0, 0)]), 5 + 1);
    assert_eq!(levels(Class::Glyph), 1);
    assert_eq!(levels(Class::Image), 5);
}

#[test]
fn glyphs_and_icons_share_the_mono_array() {
    assert_eq!(array_of(Class::Glyph), Array::Mono);
    assert_eq!(array_of(Class::Icon), Array::Mono);
    assert_eq!(array_of(Class::Image), Array::Color);
}
