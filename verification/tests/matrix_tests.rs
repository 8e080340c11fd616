use supercontracts::matrix::{
    first_matrix_outcome, multiply_compatible, parse_matrix_cells, render_matrix,
    second_matrix_outcome,
};
use supercontracts::Fault;

fn to_floats(cells: &[Vec<Vec<u8>>]) -> Vec<Vec<f64>> {
    cells
        .iter()
        .map(|row| {
            row.iter()
                .map(|f| std::str::from_utf8(f).unwrap().parse::<f64>().unwrap())
                .collect()
        })
        .collect()
}

fn multiply(a: &[Vec<f64>], b: &[Vec<f64>]) -> Vec<Vec<f64>> {
    let mut c = Vec::new();
    for i in 0..a.len() {
        let mut row = Vec::new();
        for j in 0..b[0].len() {
            let mut acc = 0.0;
            for k in 0..b.len() {
                acc += a[i][k] * b[k][j];
            }
            row.push(acc);
        }
        c.push(row);
    }
    c
}

fn to_cells(m: &[Vec<f64>]) -> Vec<Vec<Vec<u8>>> {
    m.iter()
        .map(|row| row.iter().map(|x| format!("{:?}", x).into_bytes()).collect())
        .collect()
}

fn run_contract(a_text: &[u8], b_text: &[u8]) -> Result<Vec<u8>, Fault> {
    let a_cells = first_matrix_outcome(Some(a_text.to_vec()))?;
    let b_cells = second_matrix_outcome(Some(b_text.to_vec()))?;
    let a = to_floats(&a_cells);
    let b = to_floats(&b_cells);
    multiply_compatible(a.len(), a[0].len(), b.len(), b[0].len())?;
    let product = multiply(&a, &b);
    Ok(render_matrix(&to_cells(&product)))
}

#[test]
fn two_by_two_product_is_exact() {
    let out = run_contract(b"1\t2\n3\t4\n", b"5\t6\n7\t8\n").unwrap();
    assert_eq!(out, b"19.0\t22.0\n43.0\t50.0\n".to_vec());
}

#[test]
fn incompatible_shapes_fail_before_any_output() {
    // A is 2x3, B is 2x2: widths 3 and row count 2 do not match.
    let r = run_contract(b"1\t2\t3\n4\t5\t6\n", b"1\t2\n3\t4\n");
    assert!(matches!(r, Err(Fault::DimensionMismatch)));
}

#[test]
fn rerunning_on_the_same_input_is_byte_identical() {
    let a = b"1.5\t-2.25\n0.125\t3\n";
    let b = b"2\t0.5\n-1\t4\n";
    let first = run_contract(a, b).unwrap();
    let second = run_contract(a, b).unwrap();
    assert_eq!(first, second);
}

#[test]
fn serialized_values_parse_back_bit_for_bit() {
    let values = vec![vec![1.5f64, -2.25, 0.1], vec![3.0, 1e300, -0.0]];
    let wire = render_matrix(&to_cells(&values));
    let back = to_floats(&parse_matrix_cells(&wire).unwrap());
    assert_eq!(back.len(), values.len());
    for (row, orig) in back.iter().zip(values.iter()) {
        for (x, y) in row.iter().zip(orig.iter()) {
            assert_eq!(x.to_bits(), y.to_bits());
        }
    }
}

#[test]
fn missing_input_and_malformed_input_fail_the_load() {
    assert!(matches!(
        first_matrix_outcome(None),
        Err(Fault::MatrixALoadFailed)
    ));
    assert!(matches!(
        second_matrix_outcome(None),
        Err(Fault::MatrixBLoadFailed)
    ));
    // Ragged rows are rejected whole.
    assert!(matches!(
        first_matrix_outcome(Some(b"1\t2\n3\n".to_vec())),
        Err(Fault::MatrixAParseFailed)
    ));
    // An empty file has no first row.
    assert!(matches!(
        second_matrix_outcome(Some(Vec::new())),
        Err(Fault::MatrixBParseFailed)
    ));
}

#[test]
fn compatibility_check_returns_the_product_shape() {
    assert_eq!(multiply_compatible(2, 3, 3, 5).unwrap(), (2, 5));
    assert!(matches!(
        multiply_compatible(2, 3, 4, 5),
        Err(Fault::DimensionMismatch)
    ));
}
