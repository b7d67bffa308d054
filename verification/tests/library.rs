use genre_trends::fields::{genres_field_decodes, parse_genres, parse_release_year};
use genre_trends::trend::{compute_genre_popularity, Movie, TrendCell, TrendTable};
use genre_trends::summary::compute_summary_statistics;
use genre_trends::output::{
    decode_genre_trends, encode_genre_trends, parse_i32_dec, parse_usize_dec,
    summary_report_lines,
};
use genre_trends::decimal::{i64_to_dec, parse_u64_dec, u64_to_dec};

fn movie(genres: &str, release_date: &str) -> Movie {
    Movie {
        id: String::from("1"),
        title: String::from("t"),
        genres: String::from(genres),
        release_date: String::from(release_date),
    }
}

fn cell_count(cells: &[TrendCell], year: i32, genre: &str) -> Option<usize> {
    cells
        .iter()
        .find(|c| c.year == year && c.genre == genre)
        .map(|c| c.count)
}

#[test]
fn test_parse_release_year() {
    assert_eq!(parse_release_year("1995-07-14"), Some(1995));
    assert_eq!(parse_release_year(""), None);
    assert_eq!(parse_release_year("invalid-date"), None);
}

#[test]
fn test_parse_genres() {
    let genres_json = r#"[{"id": 28, "name": "Action"}, {"id": 12, "name": "Adventure"}]"#;
    let parsed_genres = parse_genres(genres_json);
    assert_eq!(parsed_genres, vec!["Action", "Adventure"]);

    let invalid_json = r#"invalid-json"#;
    let parsed_genres = parse_genres(invalid_json);
    assert!(parsed_genres.is_empty());
}

#[test]
fn test_parse_release_year_edges() {
    assert_eq!(parse_release_year("2000"), Some(2000));
    assert_eq!(parse_release_year("+1995-07-14"), Some(1995));
    assert_eq!(parse_release_year("007-01-01"), Some(7));
    assert_eq!(parse_release_year("99999999999-01-01"), None);
    assert_eq!(parse_release_year("-2000-01-01"), None);
    assert_eq!(parse_release_year("19 95-01-01"), None);
}

#[test]
fn test_parse_genres_drops_unusable_names() {
    let json = r#"[{"name":"Action"},{"id":5},{"name":7},{"name":"Drama"}]"#;
    assert_eq!(parse_genres(json), vec!["Action", "Drama"]);
    assert!(parse_genres("{}").is_empty());
    assert!(parse_genres("[]").is_empty());
    assert_eq!(parse_genres(r#"[1,"x",{"name":"War"}]"#), vec!["War"]);
}

#[test]
fn test_decimal_render() {
    assert_eq!(u64_to_dec(0), "0");
    assert_eq!(u64_to_dec(1234), "1234");
    assert_eq!(u64_to_dec(u64::MAX), "18446744073709551615");
    assert_eq!(i64_to_dec(-45), "-45");
    assert_eq!(i64_to_dec(0), "0");
    assert_eq!(i64_to_dec(i64::MIN), "-9223372036854775808");
}

#[test]
fn test_decimal_parse() {
    assert_eq!(parse_u64_dec("0"), Some(0));
    assert_eq!(parse_u64_dec("007"), Some(7));
    assert_eq!(parse_u64_dec(""), None);
    assert_eq!(parse_u64_dec("12x"), None);
    assert_eq!(parse_u64_dec("18446744073709551615"), Some(u64::MAX));
    assert_eq!(parse_u64_dec("18446744073709551616"), None);
    assert_eq!(parse_i32_dec("-2147483648"), Some(i32::MIN));
    assert_eq!(parse_i32_dec("2147483648"), None);
    assert_eq!(parse_i32_dec("-"), None);
    assert_eq!(parse_usize_dec("42"), Some(42));
    assert_eq!(parse_usize_dec("4 2"), None);
}

#[test]
fn test_aggregation_counts() {
    let movies = vec![
        movie(r#"[{"name":"Action"},{"name":"Adventure"}]"#, "2000-01-01"),
        movie(r#"[{"name":"Action"}]"#, "2000-05-05"),
        movie(r#"[{"name":"Action"}]"#, "2001-01-01"),
        movie(r#"[{"name":"Drama"}]"#, "bad-date"),
        movie(r#"not json"#, "2000-01-01"),
    ];
    let trend = compute_genre_popularity(&movies);
    assert_eq!(cell_count(&trend.cells, 2000, "Action"), Some(2));
    assert_eq!(cell_count(&trend.cells, 2000, "Adventure"), Some(1));
    assert_eq!(cell_count(&trend.cells, 2001, "Action"), Some(1));
    assert_eq!(cell_count(&trend.cells, 2000, "Drama"), None);
    assert_eq!(trend.cells.len(), 3);
}

#[test]
fn test_summary_invariant_scenario() {
    let movies = vec![
        movie(r#"[{"name":"Action"}]"#, "1999-01-01"),
        movie(r#"[{"name":"Action"}]"#, "2003-01-01"),
        movie(r#"[{"name":"Action"}]"#, "2003-06-01"),
        movie(r#"[{"name":"Drama"}]"#, "2001-01-01"),
    ];
    let trend = compute_genre_popularity(&movies);
    let stats = compute_summary_statistics(&trend);
    assert_eq!(stats.entries.len(), 2);
    let action = stats.entries.iter().find(|e| e.genre == "Action").unwrap();
    assert_eq!(action.count, 3);
    assert_eq!(action.start_year, 1999);
    assert_eq!(action.end_year, 2003);
    let drama = stats.entries.iter().find(|e| e.genre == "Drama").unwrap();
    assert_eq!(drama.count, 1);
    assert_eq!(drama.start_year, 2001);
    assert_eq!(drama.end_year, 2001);
    // the per-genre totals add up to the sum over all cells
    let total: usize = trend.cells.iter().map(|c| c.count).sum();
    let stat_total: usize = stats.entries.iter().map(|e| e.count).sum();
    assert_eq!(total, stat_total);
}

#[test]
fn test_encode_exact_bytes() {
    let trend = TrendTable {
        cells: vec![TrendCell { year: 2000, genre: String::from("Action"), count: 1 }],
    };
    let bytes = encode_genre_trends(&trend);
    assert_eq!(bytes, b"Year,Genre,Count\n2000,Action,1\n".to_vec());
}

#[test]
fn test_decode_exact_bytes() {
    let bytes = b"Year,Genre,Count\n1987,Drama,12\n-44,War,3\n".to_vec();
    let cells = decode_genre_trends(&bytes).unwrap();
    assert_eq!(cells.len(), 2);
    assert_eq!(cells[0].year, 1987);
    assert_eq!(cells[0].genre, "Drama");
    assert_eq!(cells[0].count, 12);
    assert_eq!(cells[1].year, -44);
    assert_eq!(cells[1].genre, "War");
    assert_eq!(cells[1].count, 3);
}

#[test]
fn test_decode_rejects_malformed() {
    assert!(decode_genre_trends(&b"".to_vec()).is_none());
    assert!(decode_genre_trends(&b"Annee,Genre,Count\n2000,Action,1\n".to_vec()).is_none());
    assert!(decode_genre_trends(&b"Year,Genre,Count\nabcd,Action,1\n".to_vec()).is_none());
    assert!(decode_genre_trends(&b"Year,Genre,Count\n2000,Action,x\n".to_vec()).is_none());
    assert!(decode_genre_trends(&b"Year,Genre,Count\n2000,Action\n".to_vec()).is_none());
    assert!(decode_genre_trends(&b"Year,Genre\n2000,Action\n".to_vec()).is_none());
}

#[test]
fn test_round_trip() {
    let movies = vec![
        movie(r#"[{"name":"Action"},{"name":"Sci, Fi"}]"#, "2000-01-01"),
        movie(r#"[{"name":"Action"}]"#, "1995-07-14"),
        movie(r#"[{"name":"He said \"hi\""}]"#, "1962-01-01"),
    ];
    let trend = compute_genre_popularity(&movies);
    let bytes = encode_genre_trends(&trend);
    let cells = decode_genre_trends(&bytes).unwrap();
    assert_eq!(cells.len(), trend.cells.len());
    for (a, b) in trend.cells.iter().zip(cells.iter()) {
        assert_eq!(a.year, b.year);
        assert_eq!(a.genre, b.genre);
        assert_eq!(a.count, b.count);
    }
}

#[test]
fn test_end_to_end_scenario() {
    let movies = vec![
        movie(r#"[{"name":"Action"}]"#, "2000-01-01"),
        movie(r#"invalid-json"#, "1999-01-01"),
    ];
    let trend = compute_genre_popularity(&movies);
    assert_eq!(trend.cells.len(), 1);
    assert_eq!(trend.cells[0].year, 2000);
    assert_eq!(trend.cells[0].genre, "Action");
    assert_eq!(trend.cells[0].count, 1);
    let stats = compute_summary_statistics(&trend);
    assert_eq!(stats.entries.len(), 1);
    assert_eq!(stats.entries[0].genre, "Action");
    assert_eq!(stats.entries[0].count, 1);
    assert_eq!(stats.entries[0].start_year, 2000);
    assert_eq!(stats.entries[0].end_year, 2000);
}

#[test]
fn test_report_lines() {
    let movies = vec![movie(r#"[{"name":"Action"}]"#, "2000-01-01")];
    let trend = compute_genre_popularity(&movies);
    let stats = compute_summary_statistics(&trend);
    let lines = summary_report_lines(&stats);
    assert_eq!(lines.len(), 3);
    assert_eq!(lines[0], "Genre                Count      Start Year End Year  ");
    assert_eq!(lines[1], "-".repeat(50));
    assert_eq!(lines[2], "Action               1          2000       2000      ");
}

#[test]
fn test_aggregation_many_rows() {
    let movies: Vec<Movie> = (0..100)
        .map(|i| movie(r#"[{"name":"Action"}]"#, if i % 2 == 0 { "2000-01-01" } else { "" }))
        .collect();
    let trend = compute_genre_popularity(&movies);
    assert_eq!(cell_count(&trend.cells, 2000, "Action"), Some(50));
}

#[test]
fn test_duplicate_genre_in_one_row_counts_once() {
    // a row counts once for each genre its list contains, repeats or not
    let movies = vec![movie(r#"[{"name":"Action"},{"name":"Action"}]"#, "2000-01-01")];
    let trend = compute_genre_popularity(&movies);
    assert_eq!(cell_count(&trend.cells, 2000, "Action"), Some(1));
}

#[test]
fn test_genres_field_decodes() {
    assert!(genres_field_decodes(r#"[{"id": 28, "name": "Action"}]"#));
    assert!(genres_field_decodes("[]"));
    assert!(genres_field_decodes(r#"[1,2]"#));
    assert!(!genres_field_decodes("invalid-json"));
    assert!(!genres_field_decodes("{}"));
    assert!(!genres_field_decodes(""));
}
