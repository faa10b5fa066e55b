use ray_tracer::matrix::matrix2::Matrix2;
use ray_tracer::matrix::matrix3::Matrix3;
use ray_tracer::matrix::matrix4::Matrix4;
use ray_tracer::matrix::Matrix;

#[test]
fn constructing_inspecting_matrix2() {
    let m = Matrix2::new([
        -3.0, 5.0,
        1.0, -2.0
    ]);

    assert_eq!(m.element(0, 0), -3.0);
    assert_eq!(m.element(0, 1), 5.0);
    assert_eq!(m.element(1, 0), 1.0);
    assert_eq!(m.element(1, 1), -2.0);
}

#[test]
fn constructing_inspecting_matrix3() {
    let m = Matrix3::new([
        -3.0, 5.0, 0.0,
        1.0, -2.0, -7.0,
        0.0, 1.0, 1.0
    ]);

    assert_eq!(m.element(0, 0), -3.0);
    assert_eq!(m.element(1, 1), -2.0);
    assert_eq!(m.element(2, 2), 1.0);
}

#[test]
fn submatrix_of_3x3_is_2x2() {
    let a = Matrix3::new([
        1.0, 5.0, 0.0,
        -3.0, 2.0, 7.0,
        0.0, 6.0, -3.0
    ]);
    let expected = Matrix2::new([
        -3.0, 2.0,
        0.0, 6.0
    ]);

    assert_eq!(a.submatrix(0, 2).matrix, expected.matrix);
}

#[test]
fn constructing_inspecting_matrix4() {
    let m = Matrix4::new([
        1.0, 2.0, 3.0, 4.0,
        5.5, 6.5, 7.5, 8.5,
        9.0, 10.0, 11.0, 12.0,
        13.5, 14.5, 15.5, 16.5
    ]);

    assert_eq!(m.element(0, 0), 1.0);
    assert_eq!(m.element(0, 3), 4.0);
    assert_eq!(m.element(1, 0), 5.5);
    assert_eq!(m.element(1, 2), 7.5);
    assert_eq!(m.element(2, 2), 11.0);
    assert_eq!(m.element(3, 0), 13.5);
    assert_eq!(m.element(3, 2), 15.5);
}

#[test]
fn transposing_a_matrix() {
    let a = Matrix4::new([
        0.0, 9.0, 3.0, 0.0,
        9.0, 8.0, 0.0, 8.0,
        1.0, 8.0, 5.0, 3.0,
        0.0, 0.0, 5.0, 8.0
    ]);
    let expected = Matrix4::new([
        0.0, 9.0, 1.0, 0.0,
        9.0, 8.0, 8.0, 0.0,
        3.0, 0.0, 5.0, 5.0,
        0.0, 8.0, 3.0, 8.0
    ]);

    assert_eq!(a.transpose().matrix, expected.matrix);
}

#[test]
fn transposing_identity_matrix() {
    let id = Matrix4::identity(0.0, 1.0);

    assert_eq!(id.transpose().matrix, id.matrix);
}

#[test]
fn submatrix_of_4x4_is_3x3() {
    let a = Matrix4::new([
        -6.0, 1.0, 1.0, 6.0,
        -8.0, 5.0, 8.0, 6.0,
        -1.0, 0.0, 8.0, 2.0,
        -7.0, 1.0, -1.0, 1.0
    ]);
    let expected = Matrix3::new([
        -6.0, 1.0, 6.0,
        -8.0, 8.0, 6.0,
        -7.0, -1.0, 1.0
    ]);

    assert_eq!(a.submatrix(2, 1).matrix, expected.matrix);
}

#[test]
fn row_major_index_of_each_size() {
    assert_eq!(<Matrix2<f64> as Matrix<f64>>::get_index(1, 0), 2);
    assert_eq!(<Matrix3<f64> as Matrix<f64>>::get_index(2, 1), 7);
    assert_eq!(<Matrix4<f64> as Matrix<f64>>::get_index(3, 3), 15);
    assert_eq!(<Matrix4<i64> as Matrix<i64>>::get_index(1, 2), 6);
}

#[test]
fn write_changes_one_entry() {
    let mut m = Matrix3::new([1, 2, 3, 4, 5, 6, 7, 8, 9]);
    m.write(1, 2, 60);

    assert_eq!(m.matrix, [1, 2, 3, 4, 5, 60, 7, 8, 9]);
    assert_eq!(m.element(1, 2), 60);
}

#[test]
fn transposing_twice_gives_back_each_size() {
    let a2 = Matrix2::new([1, 2, 3, 4]);
    let a3 = Matrix3::new([1, 2, 3, 4, 5, 6, 7, 8, 9]);
    let a4 = Matrix4::new([1, 2, 3, 4, 5, 6, 7, 8, 9, 10, 11, 12, 13, 14, 15, 16]);

    assert_eq!(a2.transpose().matrix, [1, 3, 2, 4]);
    assert_eq!(a3.transpose().matrix, [1, 4, 7, 2, 5, 8, 3, 6, 9]);
    assert_eq!(a2.transpose().transpose().matrix, a2.matrix);
    assert_eq!(a3.transpose().transpose().matrix, a3.matrix);
    assert_eq!(a4.transpose().transpose().matrix, a4.matrix);
}

#[test]
fn transpose_leaves_the_receiver() {
    let a = Matrix2::new([1, 2, 3, 4]);
    let _t = a.transpose();

    assert_eq!(a.matrix, [1, 2, 3, 4]);
}

#[test]
fn identity_has_one_on_the_diagonal() {
    let id = Matrix4::identity(0, 1);

    assert_eq!(id.matrix, [1, 0, 0, 0, 0, 1, 0, 0, 0, 0, 1, 0, 0, 0, 0, 1]);
}

#[test]
fn submatrix_at_each_corner() {
    let a = Matrix3::new([1, 2, 3, 4, 5, 6, 7, 8, 9]);

    assert_eq!(a.submatrix(0, 0).matrix, [5, 6, 8, 9]);
    assert_eq!(a.submatrix(2, 2).matrix, [1, 2, 4, 5]);
    assert_eq!(a.submatrix(1, 1).matrix, [1, 3, 7, 9]);

    let b = Matrix4::new([1, 2, 3, 4, 5, 6, 7, 8, 9, 10, 11, 12, 13, 14, 15, 16]);
    assert_eq!(b.submatrix(0, 3).matrix, [5, 6, 7, 9, 10, 11, 13, 14, 15]);
    assert_eq!(b.submatrix(3, 0).matrix, [2, 3, 4, 6, 7, 8, 10, 11, 12]);
}
