use nn::matrix::Matrix;

fn text(rows: &[Vec<f32>]) -> String {
    Matrix::new(rows).unwrap().map(|x: f32| format!("{}", x)).render()
}

#[test]
fn renders_small_matrix() {
    assert_eq!(text(&[vec![1., 2.], vec![3., 4.]]), "   0 1\n0│1|2|\n1│3|4|\n");
}

#[test]
fn renders_with_global_width() {
    assert_eq!(
        text(&[vec![1.5, -10.], vec![3., 4.]]),
        "     0   1\n0│1.5|-10|\n1│  3|  4|\n"
    );
}

#[test]
fn renders_wide_column_indices() {
    let row = vec![0.; 12];
    assert_eq!(
        text(&[row]),
        "   0 1 2 3 4 5 6 7 8 9 10 11\n0│0|0|0|0|0|0|0|0|0|0|0|0|\n"
    );
}

#[test]
fn renders_many_rows() {
    let rows: Vec<Vec<f32>> = (0..11).map(|i| vec![i as f32]).collect();
    let out = text(&rows);
    let lines: Vec<&str> = out.lines().collect();
    assert_eq!(lines.len(), 12);
    assert_eq!(lines[0], "    0");
    assert_eq!(lines[1], "0│ 0|");
    assert_eq!(lines[11], "10│10|");
}
