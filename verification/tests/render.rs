use mandelbrot::render_row;
use mandelbrot::symbol_for;

#[test]
fn bucket_boundaries() {
    let cases: [(usize, char); 26] = [
        (0, '¸'),
        (2, '¸'),
        (3, '.'),
        (5, '.'),
        (6, '•'),
        (10, '•'),
        (11, '›'),
        (30, '›'),
        (31, '-'),
        (100, '-'),
        (101, '˛'),
        (200, '˛'),
        (201, '˙'),
        (400, '˙'),
        (401, '˛'),
        (700, '˛'),
        (701, '‘'),
        (800, '‘'),
        (801, '¨'),
        (900, '¨'),
        (901, '¸'),
        (999, '¸'),
        (1000, ' '),
        (1001, '!'),
        (5000, '!'),
        (usize::MAX, '!'),
    ];
    for (count, expected) in cases {
        assert_eq!(symbol_for(count), expected);
    }
}

#[test]
fn row_renders_cell_by_cell() {
    let row: Vec<usize> = vec![0, 1000, 50, 4, 9, 1001];
    let line = render_row(&row);
    assert_eq!(line, vec!['¸', ' ', '-', '.', '•', '!']);
}

#[test]
fn empty_row_renders_empty_line() {
    let row: Vec<usize> = Vec::new();
    assert_eq!(render_row(&row).len(), 0);
}
