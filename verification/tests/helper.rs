use file_storage::endpoints::download::{download_file, Download};
use file_storage::helper::{create_file, file_name, is_taken, target_dir};

fn names(list: &[&str]) -> Vec<String> {
    list.iter().map(|name| name.to_string()).collect()
}

#[test]
fn first_name_has_no_suffix() {
    assert_eq!(file_name(0), "download.txt");
}

#[test]
fn later_names_carry_the_counter_in_parentheses() {
    assert_eq!(file_name(1), "download(1).txt");
    assert_eq!(file_name(2), "download(2).txt");
    assert_eq!(file_name(9), "download(9).txt");
    assert_eq!(file_name(10), "download(10).txt");
    assert_eq!(file_name(100), "download(100).txt");
    assert_eq!(file_name(12345), "download(12345).txt");
    assert_eq!(file_name(9007199254740993), "download(9007199254740993).txt");
    assert_eq!(file_name(u64::MAX), "download(18446744073709551615).txt");
}

#[test]
fn names_agree_with_the_format_of_the_counter() {
    for counter in 1u64..1200 {
        assert_eq!(file_name(counter), format!("download({}).txt", counter));
    }
}

#[test]
fn empty_directory_gets_the_first_name() {
    assert_eq!(create_file(&vec![]), "download.txt");
}

#[test]
fn name_in_use_is_passed_over() {
    assert_eq!(create_file(&names(&["download.txt"])), "download(1).txt");
    assert_eq!(create_file(&names(&["download.txt", "download(1).txt"])), "download(2).txt");
    assert_eq!(create_file(&names(&["download(1).txt", "download.txt"])), "download(2).txt");
}

#[test]
fn first_gap_is_taken() {
    assert_eq!(create_file(&names(&["download.txt", "download(2).txt"])), "download(1).txt");
    assert_eq!(create_file(&names(&["download(1).txt", "download(2).txt"])), "download.txt");
}

#[test]
fn other_names_do_not_count() {
    let taken = names(&["notes.txt", "download", "download(0).txt", "download(01).txt", "Download.txt"]);
    assert_eq!(create_file(&taken), "download.txt");
    let taken = names(&["download.txt", "download(0).txt", "download (1).txt", "download(1).TXT"]);
    assert_eq!(create_file(&taken), "download(1).txt");
}

#[test]
fn name_listed_twice_counts_once() {
    let taken = names(&["download.txt", "download.txt", "download.txt"]);
    assert_eq!(create_file(&taken), "download(1).txt");
}

#[test]
fn counter_runs_past_ten() {
    let mut taken = vec!["download.txt".to_string()];
    for counter in 1..=11 {
        taken.push(format!("download({}).txt", counter));
    }
    assert_eq!(create_file(&taken), "download(12).txt");
}

#[test]
fn two_downloads_get_two_names_and_the_same_bytes() {
    let rows = vec![(0, b"hello ".to_vec()), (1, b"world".to_vec())];
    let mut directory: Vec<String> = Vec::new();

    let first_name = create_file(&directory);
    let first = download_file(&rows);
    directory.push(first_name.clone());
    let second_name = create_file(&directory);
    let second = download_file(&rows);

    assert_eq!(first_name, "download.txt");
    assert_eq!(second_name, "download(1).txt");
    assert_eq!(first, Download::Complete(b"hello world".to_vec()));
    assert_eq!(first, second);
}

#[test]
fn two_downloads_beside_an_existing_file() {
    let mut directory = names(&["download.txt"]);
    let first_name = create_file(&directory);
    directory.push(first_name.clone());
    let second_name = create_file(&directory);
    assert_eq!(first_name, "download(1).txt");
    assert_eq!(second_name, "download(2).txt");
}

#[test]
fn taken_names_are_found() {
    let taken = names(&["a", "download.txt", ""]);
    assert!(is_taken(&taken, &"download.txt".to_string()));
    assert!(is_taken(&taken, &"".to_string()));
    assert!(!is_taken(&taken, &"download(1).txt".to_string()));
    assert!(!is_taken(&vec![], &"download.txt".to_string()));
}

#[test]
fn downloads_go_to_the_temporary_directory() {
    assert_eq!(target_dir(), "/tmp");
}
