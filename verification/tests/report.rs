use sl_studio::report::{report_lines, CategoryCount, ReportFact, ReportStatistics};

#[test]
fn report_layout() {
    let st = ReportStatistics { total_facts: 12, total_entities: 30, unique_entities: 20, total_chains: -1 };
    let cats = vec![
        CategoryCount { category: "fraud".to_string(), count: 7 },
        CategoryCount { category: "theft".to_string(), count: 5 },
    ];
    let long = "x".repeat(70);
    let facts = vec![
        ReportFact { category: Some("fraud".to_string()), summary: "short".to_string() },
        ReportFact { category: None, summary: long },
    ];
    let lines = report_lines("2024-05-06 07:08:09", &st, &cats, &facts);
    let texts: Vec<&str> = lines.iter().map(|l| l.text.as_str()).collect();
    assert_eq!(
        texts,
        vec![
            "SL Studio - Forensic Document Analysis Report",
            "Generated: 2024-05-06 07:08:09",
            "Summary Statistics",
            "Total Facts: 12",
            "Total Entities: 30",
            "Unique Entities: 20",
            "Total Chains: -1",
            "Category Distribution",
            "fraud: 7 items",
            "theft: 5 items",
            "Top Facts",
            "1. [fraud] short",
            &format!("2. [N/A] {}...", "x".repeat(60)),
        ]
    );
    let ys: Vec<i64> = lines.iter().map(|l| l.y).collect();
    assert_eq!(ys, vec![277, 268, 250, 240, 232, 224, 216, 198, 188, 181, 159, 149, 143]);
    assert!(lines[0].bold && !lines[1].bold);
    assert_eq!((lines[0].size, lines[8].size, lines[11].size), (24, 11, 9));
}

#[test]
fn report_lists_at_most_what_fits() {
    let st = ReportStatistics { total_facts: 0, total_entities: 0, unique_entities: 0, total_chains: 0 };
    let cats: Vec<CategoryCount> = (0..12).map(|i| CategoryCount { category: format!("c{i}"), count: i }).collect();
    let facts: Vec<ReportFact> = (0..20).map(|i| ReportFact { category: None, summary: format!("f{i}") }).collect();
    let lines = report_lines("now", &st, &cats, &facts);
    // ten categories, then facts from 93 mm down to 33 mm
    assert_eq!(lines.len(), 8 + 10 + 1 + 11);
    assert_eq!(lines[18].y, 103);
    assert_eq!(lines[19].y, 93);
    assert_eq!(lines.last().unwrap().y, 33);
}

#[test]
fn report_lines_stay_on_the_page() {
    let st = ReportStatistics { total_facts: 1, total_entities: 1, unique_entities: 1, total_chains: 1 };
    for ncat in [0usize, 3, 10, 20] {
        let cats: Vec<CategoryCount> = (0..ncat).map(|i| CategoryCount { category: format!("c{i}"), count: 1 }).collect();
        let facts: Vec<ReportFact> = (0..30).map(|i| ReportFact { category: Some("x".to_string()), summary: format!("fact {i}") }).collect();
        for l in report_lines("t", &st, &cats, &facts) {
            assert!(l.y >= 30 && l.y <= 277);
        }
    }
}
