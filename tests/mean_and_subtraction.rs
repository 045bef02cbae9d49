use fits_lizard::error::ImageError;
use fits_lizard::image::Image;
use fits_lizard::loader::image_from_payload;
use fits_lizard::mean::{combine, compute_mean_image, finish_mean, Accumulator};
use fits_lizard::pipeline::{
    correct_record, subtract_image, subtract_mean, subtract_mean_from_list, ImageRecord,
    ResultRecord,
};

fn add(a: f32, b: f32) -> f32 {
    a + b
}

fn div(s: f32, n: usize) -> f32 {
    s / n as f32
}

fn sub(a: f32, b: f32) -> f32 {
    a - b
}

fn uniform(rows: usize, cols: usize, v: f32) -> Image<f32> {
    Image::new(rows, cols, vec![v; rows * cols]).unwrap()
}

fn pattern(rows: usize, cols: usize, base: f32) -> Image<f32> {
    let pixels: Vec<f32> = (0..rows * cols).map(|i| base + i as f32).collect();
    Image::new(rows, cols, pixels).unwrap()
}

fn record(image: Image<f32>, rot: Option<f32>, jd: Option<f64>) -> ImageRecord<f32, f32, f64> {
    ImageRecord { image, rotation_angle: rot, timestamp: jd }
}

fn mean_of(images: &Vec<Image<f32>>) -> Result<Image<f32>, ImageError> {
    compute_mean_image(images, &add, &div)
}

fn pipeline(
    subjects: &Vec<ImageRecord<f32, f32, f64>>,
    refs: &Vec<Image<f32>>,
) -> Result<Vec<ResultRecord<f32, f32, f64>>, ImageError> {
    subtract_mean_from_list(subjects, refs, &add, &div, &sub, 0.0f32, 0.0f64)
}

#[test]
fn two_uniform_references_then_subject() {
    let refs = vec![uniform(2, 2, 2.0), uniform(2, 2, 4.0)];
    let mean = mean_of(&refs).unwrap();
    assert_eq!(mean.shape(), (2, 2));
    assert_eq!(mean.pixels, vec![3.0f32; 4]);
    let subjects = vec![record(uniform(2, 2, 5.0), None, None)];
    let out = pipeline(&subjects, &refs).unwrap();
    assert_eq!(out.len(), 1);
    assert_eq!(out[0].image.shape(), (2, 2));
    assert_eq!(out[0].image.pixels, vec![2.0f32; 4]);
    assert_eq!(out[0].rotation_angle, 0.0f32);
    assert_eq!(out[0].timestamp, 0.0f64);
}

#[test]
fn mean_of_empty_list_is_empty_input() {
    let refs: Vec<Image<f32>> = Vec::new();
    assert!(matches!(mean_of(&refs), Err(ImageError::EmptyInput)));
}

#[test]
fn mean_of_zero_size_images_is_empty_input() {
    let refs = vec![uniform(0, 0, 1.0), uniform(0, 3, 1.0)];
    assert!(matches!(mean_of(&refs), Err(ImageError::EmptyInput)));
}

#[test]
fn mean_of_single_image_is_unchanged() {
    let img = pattern(3, 4, 0.25);
    let mean = mean_of(&vec![img.clone()]).unwrap();
    assert_eq!(mean.shape(), (3, 4));
    assert_eq!(mean.pixels, img.pixels);
}

#[test]
fn mean_is_elementwise_and_order_free() {
    let a = pattern(2, 3, 1.0);
    let b = pattern(2, 3, 10.0);
    let c = pattern(2, 3, 100.0);
    let expected: Vec<f32> = (0..6).map(|i| (111.0 + 3.0 * i as f32) / 3.0).collect();
    let orders = vec![
        vec![a.clone(), b.clone(), c.clone()],
        vec![c.clone(), a.clone(), b.clone()],
        vec![b.clone(), c.clone(), a.clone()],
        vec![c.clone(), b.clone(), a.clone()],
    ];
    for order in orders.iter() {
        let m = mean_of(order).unwrap();
        assert_eq!(m.shape(), (2, 3));
        assert_eq!(m.pixels, expected);
    }
}

#[test]
fn mean_is_independent_of_reduction_tree() {
    let a = Accumulator::of_image(pattern(2, 2, 1.0));
    let b = Accumulator::of_image(pattern(2, 2, 2.0));
    let c = Accumulator::of_image(pattern(2, 2, 3.0));
    let left = combine(
        combine(a.clone(), Accumulator::identity(), &add).unwrap(),
        combine(b.clone(), c.clone(), &add).unwrap(),
        &add,
    )
    .unwrap();
    let right = combine(
        combine(Accumulator::identity(), combine(c, a, &add).unwrap(), &add).unwrap(),
        b,
        &add,
    )
    .unwrap();
    assert_eq!(left.count, 3);
    assert_eq!(right.count, 3);
    let ml = finish_mean(&left, &div).unwrap();
    let mr = finish_mean(&right, &div).unwrap();
    assert_eq!(ml.pixels, vec![2.0f32, 3.0, 4.0, 5.0]);
    assert_eq!(ml.pixels, mr.pixels);
}

#[test]
fn identity_is_neutral_in_combine() {
    let a = Accumulator::of_image(pattern(2, 2, 7.0));
    let l = combine(Accumulator::identity(), a.clone(), &add).unwrap();
    let r = combine(a.clone(), Accumulator::identity(), &add).unwrap();
    assert_eq!(l.count, 1);
    assert_eq!(r.count, 1);
    assert_eq!(l.sum.pixels, a.sum.pixels);
    assert_eq!(r.sum.pixels, a.sum.pixels);
    let e = combine(Accumulator::<f32>::identity(), Accumulator::identity(), &add).unwrap();
    assert_eq!(e.count, 0);
    assert!(e.sum.is_empty());
}

#[test]
fn combine_adds_pixels_and_counts() {
    let a = Accumulator::of_image(pattern(1, 3, 1.0));
    let b = Accumulator::of_image(pattern(1, 3, 10.0));
    let s = combine(a, b, &add).unwrap();
    assert_eq!(s.count, 2);
    assert_eq!(s.sum.shape(), (1, 3));
    assert_eq!(s.sum.pixels, vec![11.0f32, 13.0, 15.0]);
}

#[test]
fn combine_refuses_mismatched_shapes() {
    let a = Accumulator::of_image(uniform(2, 3, 1.0));
    let b = Accumulator::of_image(uniform(3, 2, 1.0));
    match combine(a, b, &add) {
        Err(ImageError::ShapeMismatch { left, right }) => {
            assert_eq!(left, (2, 3));
            assert_eq!(right, (3, 2));
        }
        other => panic!("unexpected {:?}", other),
    }
}

#[test]
fn finish_mean_of_identity_is_empty_input() {
    let e = Accumulator::<f32>::identity();
    assert!(matches!(finish_mean(&e, &div), Err(ImageError::EmptyInput)));
}

#[test]
fn mixed_shape_reference_set_is_shape_mismatch() {
    let mut refs = vec![uniform(5, 5, 1.0), uniform(5, 5, 2.0), uniform(5, 5, 3.0)];
    refs.insert(1, uniform(10, 10, 4.0));
    assert!(matches!(mean_of(&refs), Err(ImageError::ShapeMismatch { .. })));
    let subjects = vec![record(uniform(5, 5, 1.0), None, None)];
    assert!(matches!(pipeline(&subjects, &refs), Err(ImageError::ShapeMismatch { .. })));
}

#[test]
fn zero_size_reference_is_skipped() {
    let refs = vec![uniform(0, 0, 0.0), uniform(2, 2, 6.0), uniform(0, 7, 0.0)];
    let m = mean_of(&refs).unwrap();
    assert_eq!(m.shape(), (2, 2));
    assert_eq!(m.pixels, vec![6.0f32; 4]);
}

#[test]
fn subject_of_other_shape_fails_whole_batch() {
    let refs = vec![uniform(2, 2, 1.0)];
    let subjects = vec![
        record(uniform(2, 2, 3.0), None, None),
        record(uniform(3, 3, 3.0), None, None),
    ];
    assert!(matches!(pipeline(&subjects, &refs), Err(ImageError::ShapeMismatch { .. })));
}

#[test]
fn empty_reference_set_fails_pipeline() {
    let subjects = vec![record(uniform(2, 2, 3.0), None, None)];
    let refs: Vec<Image<f32>> = Vec::new();
    assert!(matches!(pipeline(&subjects, &refs), Err(ImageError::EmptyInput)));
}

#[test]
fn output_follows_subject_order() {
    let refs = vec![uniform(2, 2, 1.0)];
    let subjects: Vec<ImageRecord<f32, f32, f64>> = (0..5)
        .map(|k| record(pattern(2, 2, 10.0 * k as f32), Some(k as f32), Some(100.0 + k as f64)))
        .collect();
    let out = pipeline(&subjects, &refs).unwrap();
    assert_eq!(out.len(), subjects.len());
    for (k, r) in out.iter().enumerate() {
        let base = 10.0 * k as f32;
        assert_eq!(r.image.pixels, vec![base - 1.0, base, base + 1.0, base + 2.0]);
        assert_eq!(r.rotation_angle, k as f32);
        assert_eq!(r.timestamp, 100.0 + k as f64);
    }
}

#[test]
fn empty_subject_list_gives_no_results() {
    let refs = vec![uniform(2, 2, 1.0)];
    let subjects: Vec<ImageRecord<f32, f32, f64>> = Vec::new();
    assert_eq!(pipeline(&subjects, &refs).unwrap().len(), 0);
}

#[test]
fn absent_header_fields_default_to_zero() {
    let mean = uniform(1, 2, 1.0);
    let r = correct_record(&record(uniform(1, 2, 4.0), None, Some(2.5)), &mean, &sub, 0.0f32, 0.0f64)
        .unwrap();
    assert_eq!(r.rotation_angle, 0.0f32);
    assert_eq!(r.timestamp, 2.5f64);
    assert_eq!(r.image.pixels, vec![3.0f32, 3.0]);
    let r = correct_record(&record(uniform(1, 2, 4.0), Some(-12.5), None), &mean, &sub, 0.0f32, 0.0f64)
        .unwrap();
    assert_eq!(r.rotation_angle, -12.5f32);
    assert_eq!(r.timestamp, 0.0f64);
}

#[test]
fn subtract_image_refuses_other_shape() {
    let a = uniform(2, 2, 1.0);
    let b = uniform(1, 4, 1.0);
    match subtract_image(&a, &b, &sub) {
        Err(ImageError::ShapeMismatch { left, right }) => {
            assert_eq!(left, (2, 2));
            assert_eq!(right, (1, 4));
        }
        other => panic!("unexpected {:?}", other),
    }
}

#[test]
fn subtract_mean_uses_given_mean() {
    let mean = pattern(1, 3, 1.0);
    let subjects = vec![record(uniform(1, 3, 10.0), None, None)];
    let out = subtract_mean(&subjects, &mean, &sub, 0.0f32, 0.0f64).unwrap();
    assert_eq!(out[0].image.pixels, vec![9.0f32, 8.0, 7.0]);
}

#[test]
fn image_new_checks_pixel_count() {
    assert!(matches!(Image::new(2, 2, vec![1.0f32; 3]), Err(ImageError::MalformedData)));
    assert!(matches!(Image::new(usize::MAX, 2, vec![1.0f32; 3]), Err(ImageError::MalformedData)));
    let img = Image::new(2, 3, vec![0.5f32; 6]).unwrap();
    assert_eq!(img.shape(), (2, 3));
    assert!(!img.is_empty());
}

#[test]
fn plane_payload_is_used_as_is() {
    let data: Vec<f32> = (0..6).map(|i| i as f32).collect();
    let img = image_from_payload(&vec![2, 3], data.clone()).unwrap();
    assert_eq!(img.shape(), (2, 3));
    assert_eq!(img.pixels, data);
}

#[test]
fn cube_gives_its_last_frame() {
    let data: Vec<f32> = (0..24).map(|i| i as f32).collect();
    let cube = image_from_payload(&vec![4, 2, 3], data.clone()).unwrap();
    let frame = image_from_payload(&vec![2, 3], data[18..24].to_vec()).unwrap();
    assert_eq!(cube.shape(), (2, 3));
    assert_eq!(cube.pixels, vec![18.0f32, 19.0, 20.0, 21.0, 22.0, 23.0]);
    assert_eq!(cube.shape(), frame.shape());
    assert_eq!(cube.pixels, frame.pixels);
}

#[test]
fn single_frame_cube_is_that_frame() {
    let data: Vec<f32> = vec![1.0, 2.0];
    let img = image_from_payload(&vec![1, 1, 2], data.clone()).unwrap();
    assert_eq!(img.shape(), (1, 2));
    assert_eq!(img.pixels, data);
}

#[test]
fn other_axis_counts_are_unsupported() {
    match image_from_payload(&vec![6], vec![0.0f32; 6]) {
        Err(ImageError::UnsupportedShape(s)) => assert_eq!(s, vec![6]),
        other => panic!("unexpected {:?}", other),
    }
    match image_from_payload(&vec![1, 2, 3, 1], vec![0.0f32; 6]) {
        Err(ImageError::UnsupportedShape(s)) => assert_eq!(s, vec![1, 2, 3, 1]),
        other => panic!("unexpected {:?}", other),
    }
}

#[test]
fn payload_of_wrong_length_is_malformed() {
    assert!(matches!(image_from_payload(&vec![2, 3], vec![0.0f32; 5]), Err(ImageError::MalformedData)));
    assert!(matches!(image_from_payload(&vec![2, 2, 3], vec![0.0f32; 6]), Err(ImageError::MalformedData)));
    assert!(matches!(
        image_from_payload(&vec![usize::MAX, 4], vec![0.0f32; 4]),
        Err(ImageError::MalformedData)
    ));
}

#[test]
fn wrong_length_with_other_axis_count_is_malformed() {
    assert!(matches!(image_from_payload(&vec![6], vec![0.0f32; 5]), Err(ImageError::MalformedData)));
    assert!(matches!(
        image_from_payload(&vec![1, 2, 3, 1], vec![0.0f32; 7]),
        Err(ImageError::MalformedData)
    ));
    let empty: Vec<usize> = Vec::new();
    assert!(matches!(image_from_payload(&empty, vec![0.0f32; 2]), Err(ImageError::MalformedData)));
    match image_from_payload(&empty, vec![0.0f32; 1]) {
        Err(ImageError::UnsupportedShape(s)) => assert!(s.is_empty()),
        other => panic!("unexpected {:?}", other),
    }
}

#[test]
fn huge_extent_with_zero_axis_counts_as_empty() {
    let empty: Vec<f32> = Vec::new();
    match image_from_payload(&vec![usize::MAX, usize::MAX, 0, 2], empty) {
        Err(ImageError::UnsupportedShape(s)) => assert_eq!(s.len(), 4),
        other => panic!("unexpected {:?}", other),
    }
    assert!(matches!(
        image_from_payload(&vec![usize::MAX, usize::MAX, 1, 2], vec![0.0f32; 4]),
        Err(ImageError::MalformedData)
    ));
}

#[test]
fn cube_without_frames_is_malformed() {
    let empty: Vec<f32> = Vec::new();
    assert!(matches!(image_from_payload(&vec![0, 2, 2], empty), Err(ImageError::MalformedData)));
}
