use wireframe::matrix::Matrix;
use wireframe::solid::{
    cube_corners, cube_edges, square_corners, square_edges, Corner, Line, Scene, Wireframe,
};
use wireframe::transformations::{basic_scale, rotation_matrix, translate, RotationAxis};

fn mul_add(acc: f32, x: f32, y: f32) -> f32 {
    acc + x * y
}

fn entries(m: &Matrix<f32>) -> Vec<Vec<f32>> {
    (0..m.num_rows())
        .map(|i| (0..m.num_cols()).map(|j| m.at(i, j)).collect())
        .collect()
}

fn identity() -> Vec<Vec<f32>> {
    (0..4)
        .map(|i| (0..4).map(|j| if i == j { 1.0 } else { 0.0 }).collect())
        .collect()
}

fn apply(m: &Matrix<f32>, p: (f32, f32, f32)) -> (f32, f32, f32) {
    let v = Matrix::from_vec(vec![vec![p.0, p.1, p.2, 1.0]], 0.0);
    let r = v.matrix_multiply(m, mul_add).unwrap();
    (r.at(0, 0), r.at(0, 1), r.at(0, 2))
}

fn rotate(axis: RotationAxis, theta: f32, x: f32, y: f32, z: f32) -> Matrix<f32> {
    let (s, c) = (theta.sin(), theta.cos());
    let a = translate(-x, -y, -z, 0.0, 1.0);
    let b = translate(x, y, z, 0.0, 1.0);
    let r = rotation_matrix(axis, s, c, -s, 0.0, 1.0);
    a.matrix_multiply(&r, mul_add).unwrap().matrix_multiply(&b, mul_add).unwrap()
}

#[test]
fn translate_puts_the_offset_in_the_last_row() {
    let t = translate(2.0f32, 3.0, 4.0, 0.0, 1.0);
    assert_eq!(
        entries(&t),
        vec![
            vec![1.0, 0.0, 0.0, 0.0],
            vec![0.0, 1.0, 0.0, 0.0],
            vec![0.0, 0.0, 1.0, 0.0],
            vec![2.0, 3.0, 4.0, 1.0],
        ]
    );
    assert_eq!(apply(&t, (1.0, 1.0, 1.0)), (3.0, 4.0, 5.0));
}

#[test]
fn translate_then_back_is_the_identity() {
    for (a, b, c) in [(2.0f32, 3.0, 4.0), (-20.0, 0.5, 100.0), (0.0, 0.0, 0.0)] {
        let there = translate(a, b, c, 0.0, 1.0);
        let back = translate(-a, -b, -c, 0.0, 1.0);
        let both = there.matrix_multiply(&back, mul_add).unwrap();
        assert_eq!(entries(&both), identity());
    }
}

#[test]
fn basic_scale_is_diagonal() {
    let s = basic_scale(2.0f32, 3.0, 4.0, 0.0, 1.0);
    assert_eq!(
        entries(&s),
        vec![
            vec![2.0, 0.0, 0.0, 0.0],
            vec![0.0, 3.0, 0.0, 0.0],
            vec![0.0, 0.0, 4.0, 0.0],
            vec![0.0, 0.0, 0.0, 1.0],
        ]
    );
    assert_eq!(apply(&s, (1.0, 1.0, 1.0)), (2.0, 3.0, 4.0));
}

#[test]
fn rotation_matrices_keep_the_homogeneous_corner() {
    for axis in [RotationAxis::X, RotationAxis::Y, RotationAxis::Z] {
        let r = rotation_matrix(axis, 0.5f32, 0.25, -0.5, 0.0, 1.0);
        assert_eq!(r.at(3, 3), 1.0);
    }
    let z = rotation_matrix(RotationAxis::Z, 1.0f32, 0.0, -1.0, 0.0, 1.0);
    assert_eq!(apply(&z, (1.0, 0.0, 0.0)), (0.0, 1.0, 0.0));
    let x = rotation_matrix(RotationAxis::X, 0.5f32, 2.0, -0.5, 0.0, 1.0);
    assert_eq!(entries(&x)[1], vec![0.0, 2.0, 0.5, 0.0]);
    assert_eq!(entries(&x)[2], vec![0.0, -0.5, 2.0, 0.0]);
    let y = rotation_matrix(RotationAxis::Y, 0.5f32, 2.0, -0.5, 0.0, 1.0);
    assert_eq!(entries(&y)[0], vec![2.0, 0.0, 0.5, 0.0]);
    assert_eq!(entries(&y)[2], vec![-0.5, 0.0, 2.0, 0.0]);
}

#[test]
fn rotation_by_zero_keeps_every_point() {
    for axis in [RotationAxis::X, RotationAxis::Y, RotationAxis::Z] {
        let r = rotate(axis, 0.0, 3.0, -2.0, 5.0);
        for p in [(0.0, 0.0, 0.0), (1.0, 2.0, 3.0), (-20.0, -20.0, -20.0), (40.0, 0.5, -7.0)] {
            assert_eq!(apply(&r, p), p);
        }
    }
}

#[test]
fn cube_has_twelve_edges() {
    let corners = cube_corners();
    let side = 40.0f32;
    let origin = (-20.0f32, -20.0f32, -20.0f32);
    let pick = |far: bool, near: f32| if far { near + side } else { near };
    let points: Vec<(f32, f32, f32)> = corners
        .iter()
        .map(|c: &Corner| (pick(c.x, origin.0), pick(c.y, origin.1), pick(c.z, origin.2)))
        .collect();
    assert_eq!(points[0], (-20.0, -20.0, -20.0));
    assert_eq!(points[6], (20.0, 20.0, 20.0));
    let edges = cube_edges();
    assert_eq!(edges.len(), 12);
    let vertical = edges.iter().filter(|(a, b)| *b == *a + 4).count();
    let bottom = edges.iter().filter(|(a, b)| *a < 4 && *b < 4).count();
    let top = edges.iter().filter(|(a, b)| *a >= 4 && *b >= 4).count();
    assert_eq!((vertical, bottom, top), (4, 4, 4));
    let w = Wireframe::new(points, edges).unwrap();
    let lines = w.get_lines();
    assert_eq!(lines.len(), 12);
    assert_eq!(lines[0].a, (-20.0, -20.0, -20.0));
    assert_eq!(lines[0].b, (-20.0, -20.0, 20.0));
}

#[test]
fn square_has_four_edges() {
    assert_eq!(square_corners().len(), 4);
    let edges = square_edges();
    assert_eq!(edges, vec![(0, 1), (1, 2), (2, 3), (3, 0)]);
    let points = vec![(0.0f32, 0.0f32), (6.0, 0.0), (6.0, 6.0), (0.0, 6.0)];
    let w = Wireframe::new(points, edges).unwrap();
    let lines = w.get_lines();
    assert_eq!(lines.len(), 4);
    assert_eq!((lines[3].a, lines[3].b), ((0.0, 6.0), (0.0, 0.0)));
}

#[test]
fn wireframe_rejects_an_edge_past_its_points() {
    assert!(Wireframe::new(vec![1, 2, 3], vec![(0, 1), (2, 3)]).is_none());
    assert!(Wireframe::new(vec![1, 2, 3], vec![(0, 1), (2, 0)]).is_some());
    assert!(Wireframe::<i32>::new(vec![], vec![]).is_some());
}

#[test]
fn scenes_count_their_lines() {
    let mut s: Scene<i32> = Scene::new();
    assert_eq!(s.num_lines, 0);
    assert!(s.lines.is_empty());
    s.push_line(Line::new(1, 2));
    s.push_line(Line::new(3, 4));
    assert_eq!(s.num_lines, 2);
    let t = Scene::from_lines(vec![Line::new(5, 6)]);
    assert_eq!(t.num_lines, 1);
    assert_eq!((t.lines[0].a, t.lines[0].b), (5, 6));
}

#[test]
fn map_points_transforms_both_ends() {
    let s = Scene::from_lines(vec![Line::new(1, 2), Line::new(3, 4)]);
    let t = s.map_points(|p: i32| p * 10);
    assert_eq!(t.num_lines, 2);
    assert_eq!((t.lines[1].a, t.lines[1].b), (30, 40));
}

#[test]
fn keep_complete_drops_lines_with_a_missing_end() {
    let s = Scene::from_lines(vec![
        Line::new(Some(1), Some(2)),
        Line::new(None, Some(3)),
        Line::new(Some(4), None),
        Line::new(Some(5), Some(6)),
    ]);
    let t = s.keep_complete();
    assert_eq!(t.num_lines, 2);
    assert_eq!((t.lines[0].a, t.lines[0].b), (1, 2));
    assert_eq!((t.lines[1].a, t.lines[1].b), (5, 6));
}

fn view_and_clip(eye: (f32, f32, f32), view_angle: f32) -> Matrix<f32> {
    let (x, y, z) = eye;
    let n = (x * x + y * y + z * z).sqrt();
    let (sin_x, cos_x) = (z / n, (x * x + y * y).sqrt() / n);
    let m = (x * x + y * y).sqrt();
    let (sin_y, cos_y) = (x / m, y / m);
    let t1 = translate(-x, -y, -z, 0.0, 1.0);
    let mut t2 = Matrix::new(4, 4, 0.0f32);
    t2.set(0, 0, 1.0);
    t2.set(1, 2, -1.0);
    t2.set(2, 1, 1.0);
    t2.set(3, 3, 1.0);
    let t3 = rotation_matrix(RotationAxis::Y, sin_y, -cos_y, -sin_y, 0.0, 1.0);
    let t4 = rotation_matrix(RotationAxis::X, sin_x, cos_x, -sin_x, 0.0, 1.0);
    let t5 = basic_scale(1.0f32, 1.0, -1.0, 0.0, 1.0);
    let clip = basic_scale(view_angle, view_angle, 1.0, 0.0, 1.0);
    let mut r = t1;
    for t in [&t2, &t3, &t4, &t5, &clip] {
        r = r.matrix_multiply(t, mul_add).unwrap();
    }
    r
}

#[test]
fn camera_pipeline_golden_values() {
    let m = view_and_clip((0.0, 4.0, 100.0), 60.0 / 30.0);
    let screen = |p: (f32, f32, f32)| {
        let (x, y, z) = apply(&m, p);
        ((x / z) * 400.0 + 0.0, (y / z) * 400.0 + 0.0)
    };
    let close = |a: (f32, f32), b: (f32, f32)| (a.0 - b.0).abs() < 1e-2 && (a.1 - b.1).abs() < 1e-2;
    assert!(close(screen((0.0, 0.0, 0.0)), (0.0, 0.0)));
    assert!(close(screen((20.0, 0.0, 0.0)), (-159.87215, 0.0)));
    assert!(close(screen((-20.0, -20.0, -20.0)), (132.38091, 126.98413)));
    assert!(close(screen((20.0, 20.0, 20.0)), (-201.77413, -193.54839)));
    assert_eq!(screen((0.0, 0.0, 0.0)), screen((0.0, 0.0, 0.0)));
}
