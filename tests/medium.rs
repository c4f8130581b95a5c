use raytracer::medium_segment;

#[test]
fn segment_inside_the_interval_is_kept() {
    assert_eq!(medium_segment(10, 20, 0, 100, 0), Some((10, 20)));
}

#[test]
fn segment_is_cut_to_the_interval() {
    assert_eq!(medium_segment(-5, 50, 1, 30, 0), Some((1, 30)));
    assert_eq!(medium_segment(10, 50, 1, 30, 0), Some((10, 30)));
}

#[test]
fn empty_cut_gives_nothing() {
    assert_eq!(medium_segment(40, 50, 1, 30, 0), None);
    assert_eq!(medium_segment(10, 10, 0, 30, 0), None);
}

#[test]
fn start_behind_the_origin_moves_to_it() {
    assert_eq!(medium_segment(-10, 8, -50, 30, 0), Some((0, 8)));
    assert_eq!(medium_segment(-10, 8, -5, 30, 0), Some((0, 8)));
    // A crossing wholly behind the origin keeps its end; nothing lies between.
    assert_eq!(medium_segment(-10, -2, -50, 30, 0), Some((0, -2)));
}
