use github_tools::commands::fetch_automated_review_stats::{
    authors_by_count, classify_reactions, ranked_rows, rows_csv, scan_page, update_review_block,
    MergedPr, Reaction, ReviewComment, ReviewStats, ReviewTally,
};

fn comment(url: &str, author: &str, reactions: &[&str]) -> ReviewComment {
    ReviewComment {
        url: url.to_string(),
        author: author.to_string(),
        reactions: reactions.iter().map(|r| r.to_string()).collect(),
    }
}

fn empty_tally() -> ReviewTally {
    ReviewTally {
        stats: ReviewStats { prs_scanned: 0, total: 0, liked: 0, disliked: 0, no_reaction: 0 },
        authors: Vec::new(),
        rows: Vec::new(),
    }
}

fn page() -> Vec<MergedPr> {
    vec![
        MergedPr {
            merged_at: "2024-05-01T00:00:00Z".into(),
            comments: vec![
                comment("u1", "bot", &["THUMBS_DOWN", "THUMBS_UP"]),
                comment("u2", "alice", &["THUMBS_UP"]),
                comment("u3", "bot", &["THUMBS_DOWN"]),
            ],
        },
        MergedPr {
            merged_at: "2024-01-01T00:00:00Z".into(),
            comments: vec![comment("u4", "bot", &[])],
        },
        MergedPr {
            merged_at: "2024-04-01T00:00:00Z".into(),
            comments: vec![comment("u5", "bot", &["HEART"])],
        },
    ]
}

#[test]
fn reactions_prefer_thumbs_up() {
    assert_eq!(classify_reactions(&vec!["THUMBS_DOWN".into(), "THUMBS_UP".into()]), Reaction::Liked);
    assert_eq!(classify_reactions(&vec!["THUMBS_DOWN".into()]), Reaction::Disliked);
    assert_eq!(classify_reactions(&vec!["HEART".into()]), Reaction::NoReaction);
}

#[test]
fn scanning_counts_bot_comments_since_the_boundary() {
    let mut tally = empty_tally();
    let hit = scan_page(&mut tally, &page(), Some("bot"), Some("2024-02-01"));
    assert!(hit);
    assert_eq!(tally.stats.prs_scanned, 2);
    assert_eq!(tally.stats.total, 3);
    assert_eq!((tally.stats.liked, tally.stats.disliked, tally.stats.no_reaction), (1, 1, 1));
    let urls: Vec<&str> = tally.rows.iter().map(|r| r.0.as_str()).collect();
    assert_eq!(urls, ["u1", "u3", "u5"]);
    assert!(tally.authors.is_empty());
}

#[test]
fn discovery_counts_every_author() {
    let mut tally = empty_tally();
    let hit = scan_page(&mut tally, &page(), None, None);
    assert!(!hit);
    assert_eq!(tally.stats.prs_scanned, 3);
    assert_eq!(tally.stats.total, 0);
    assert_eq!(tally.authors, vec![("bot".to_string(), 4), ("alice".to_string(), 1)]);
    let sorted = authors_by_count(&vec![("a".into(), 1), ("b".into(), 3), ("c".into(), 1)]);
    assert_eq!(sorted, vec![("b".to_string(), 3), ("a".to_string(), 1), ("c".to_string(), 1)]);
}

#[test]
fn rows_are_ranked_and_written_as_csv() {
    let rows = vec![
        ("a".to_string(), Reaction::Liked),
        ("b".to_string(), Reaction::NoReaction),
        ("c".to_string(), Reaction::Disliked),
        ("d".to_string(), Reaction::NoReaction),
    ];
    let ranked = ranked_rows(&rows);
    let order: Vec<&str> = ranked.iter().map(|r| r.0.as_str()).collect();
    assert_eq!(order, ["b", "d", "c", "a"]);
    assert_eq!(
        rows_csv(&ranked),
        "url, reaction\nb, no reaction\nd, no reaction\nc, disliked\na, liked\n"
    );
    assert_eq!(Reaction::Liked.label(), "liked");
}

#[test]
fn review_block_is_replaced_or_appended() {
    let s = "<!-- AUTO:automated-review-stats:start -->";
    let e = "<!-- AUTO:automated-review-stats:end -->";
    let existing = format!("intro\n{s}old{e}\ntail");
    assert_eq!(update_review_block(&existing, "NEW"), format!("intro\n{s}NEW{e}\ntail"));
    assert_eq!(
        update_review_block("intro", "NEW"),
        format!("intro\n## AI-Assisted Code Review\n\n{s}NEW{e}\n")
    );
}
