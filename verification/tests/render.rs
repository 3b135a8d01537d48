use kcomprs::centroid::Centroid;
use kcomprs::model::Model;
use kcomprs::render::{flatten, gen_palette, golden_section, render, swatch_width, swatches};

#[test]
fn render_paints_every_pixel_in_the_colour_of_its_centre() {
    let model = Model {
        centroids: vec![
            Centroid { sum: [1, 5, 255, 509], count: 2 },
            Centroid::at(&[10, 20, 30, 40]),
        ],
        mapping: vec![1, 0, 0, 1, 1],
        iter: 3,
    };
    let a = [1, 3, 128, 255];
    let b = [10, 20, 30, 40];
    assert_eq!(render(&model), vec![b, a, a, b, b]);
}

#[test]
fn render_of_no_pixels_is_empty() {
    let model = Model { centroids: vec![Centroid::at(&[1, 2, 3, 4])], mapping: vec![], iter: 0 };
    assert_eq!(render(&model), Vec::<[u8; 4]>::new());
}

#[test]
fn swatches_are_the_rounded_centres() {
    let centroids = vec![Centroid { sum: [10, 11, 14, 765], count: 3 }, Centroid::at(&[0, 0, 0, 0])];
    assert_eq!(swatches(&centroids), vec![[3, 4, 5, 255], [0, 0, 0, 0]]);
}

#[test]
fn flatten_lays_the_channels_out_in_turn() {
    assert_eq!(flatten(&vec![[1, 2, 3, 4], [5, 6, 7, 8]]), vec![1, 2, 3, 4, 5, 6, 7, 8]);
    assert_eq!(flatten(&vec![]), Vec::<u8>::new());
}

#[test]
fn swatch_width_shrinks_with_the_number_of_colours() {
    assert_eq!(swatch_width(0), 400);
    assert_eq!(swatch_width(1), 400);
    assert_eq!(swatch_width(2), 188);
    assert_eq!(swatch_width(15), 97);
    assert_eq!(swatch_width(20), 62);
    assert_eq!(swatch_width(21), 60);
    assert_eq!(swatch_width(22), 60);
    assert_eq!(swatch_width(1000), 60);
    assert_eq!(swatch_width(usize::MAX), 60);
}

#[test]
fn golden_section_divides_by_the_golden_ratio() {
    assert_eq!(golden_section(0), 0);
    assert_eq!(golden_section(1), 0);
    assert_eq!(golden_section(2), 1);
    assert_eq!(golden_section(3), 1);
    assert_eq!(golden_section(4), 2);
    assert_eq!(golden_section(400), 247);
    assert_eq!(golden_section(376), 232);
    assert_eq!(golden_section(1455), 899);
    let phi = (1.0 + 5.0f64.sqrt()) / 2.0;
    for w in 0..5000u32 {
        assert_eq!(golden_section(w), (w as f64 / phi) as u32);
    }
    assert_eq!(golden_section(u32::MAX), (u32::MAX as f64 / phi) as u32);
}

#[test]
fn palette_of_one_colour() {
    let palette = gen_palette(&vec![Centroid::at(&[1, 2, 3, 4])]).unwrap();
    assert_eq!(palette.width, 400);
    assert_eq!(palette.height, 247);
    assert_eq!(palette.pixels.len(), 400 * 247);
    assert!(palette.pixels.iter().all(|&p| p == [1, 2, 3, 4]));
}

#[test]
fn palette_of_three_colours() {
    let colors = [[255, 0, 0, 255], [0, 255, 0, 255], [0, 0, 255, 128]];
    let centroids: Vec<Centroid> = colors.iter().map(Centroid::at).collect();
    let palette = gen_palette(&centroids).unwrap();
    // 200 - (7 * 3 - 2) = 181 for each swatch
    assert_eq!(palette.width, 543);
    assert_eq!(palette.height, 335);
    assert_eq!(palette.pixels.len(), 543 * 335);
    for y in [0usize, 100, 334] {
        for x in 0..543usize {
            assert_eq!(palette.pixels[y * 543 + x], colors[x / 181]);
        }
    }
}

#[test]
fn palette_of_no_colour_is_empty() {
    let palette = gen_palette(&vec![]).unwrap();
    assert_eq!(palette.width, 0);
    assert_eq!(palette.height, 0);
    assert!(palette.pixels.is_empty());
}
