use algo::searches::binary_search::binary_search;
use algo::searches::breadth_first_search::bfs;
use algo::searches::depth_first_search::dfs;

#[test]
fn test_binary_search() {
    let strings = vec!["beach", "hotel", "airplane", "car", "house", "art"];
    let index = binary_search(&"car", &strings);
    assert_eq!(index, 3);
}

#[test]
fn test_bfs() {
    let strings = vec!["beach", "hotel", "airplane", "car", "house", "art"];
    let index = bfs(&"car", &strings);
    assert_eq!(index, 3);
}

#[test]
fn test_dfs() {
    let strings = vec!["beach", "hotel", "airplane", "car", "house", "art"];
    let index = dfs(&"car", &strings);
    assert_eq!(index, 3);
}

#[test]
fn search_misses_report_negative() {
    let numbers = vec![5, 8, 13];
    assert_eq!(binary_search(&21, &numbers), -1);
    assert_eq!(bfs(&21, &numbers), -1);
    assert_eq!(dfs(&21, &numbers), -1);
}

#[test]
fn search_reports_first_occurrence() {
    let numbers = vec![7, 3, 7, 3];
    assert_eq!(binary_search(&3, &numbers), 1);
    assert_eq!(bfs(&7, &numbers), 0);
    assert_eq!(dfs(&3, &numbers), 1);
}
