use linematch::tournament::{tally, CompetitionResult, TeamStats};

fn header() -> String {
    format!("{: <31}{}", "Team", "| MP |  W |  D |  L |  P")
}

#[test]
fn empty_input_renders_header_alone() {
    assert_eq!(tally(""), header());
}

#[test]
fn one_win_orders_winner_first() {
    let got = tally("A;B;win");
    let expected = format!(
        "{}\n{: <31}{}\n{: <31}{}",
        header(),
        "A",
        "|  1 |  1 |  0 |  0 |  3",
        "B",
        "|  1 |  0 |  0 |  1 |  0",
    );
    assert_eq!(got, expected);
}

#[test]
fn a_loss_credits_the_second_team() {
    let got = tally("A;B;loss");
    let expected = format!(
        "{}\n{: <31}{}\n{: <31}{}",
        header(),
        "B",
        "|  1 |  1 |  0 |  0 |  3",
        "A",
        "|  1 |  0 |  0 |  1 |  0",
    );
    assert_eq!(got, expected);
}

#[test]
fn draws_tie_on_points_and_sort_by_name() {
    let got = tally("B;A;draw");
    let expected = format!(
        "{}\n{: <31}{}\n{: <31}{}",
        header(),
        "A",
        "|  1 |  0 |  1 |  0 |  1",
        "B",
        "|  1 |  0 |  1 |  0 |  1",
    );
    assert_eq!(got, expected);
}

#[test]
fn unparsable_lines_contribute_nothing() {
    let got = tally("A;B;win\nnot a result\n\nC;A;draw");
    let expected = format!(
        "{}\n{: <31}{}\n{: <31}{}\n{: <31}{}",
        header(),
        "A",
        "|  2 |  1 |  1 |  0 |  4",
        "C",
        "|  1 |  0 |  1 |  0 |  1",
        "B",
        "|  1 |  0 |  0 |  1 |  0",
    );
    assert_eq!(got, expected);
}

#[test]
fn full_season_table() {
    let input = "Allegoric Alaskans;Blithering Badgers;win\n\
                 Devastating Donkeys;Courageous Californians;draw\n\
                 Devastating Donkeys;Allegoric Alaskans;win\n\
                 Courageous Californians;Blithering Badgers;loss\n\
                 Blithering Badgers;Devastating Donkeys;loss\n\
                 Allegoric Alaskans;Courageous Californians;win";
    let got = tally(input);
    let expected = format!(
        "{}\n{: <31}{}\n{: <31}{}\n{: <31}{}\n{: <31}{}",
        header(),
        "Devastating Donkeys",
        "|  3 |  2 |  1 |  0 |  7",
        "Allegoric Alaskans",
        "|  3 |  2 |  0 |  1 |  6",
        "Blithering Badgers",
        "|  3 |  1 |  0 |  2 |  3",
        "Courageous Californians",
        "|  3 |  0 |  1 |  2 |  1",
    );
    assert_eq!(got, expected);
}

#[test]
fn stats_accumulate_by_outcome() {
    let s = TeamStats::new();
    let s = TeamStats::add_win(&s);
    let s = TeamStats::add_win(&s);
    let s = TeamStats::add_draw(&s);
    let s = TeamStats::add_loss(&s);
    assert_eq!(s.calc_total_matches(), 4);
    assert_eq!(s.calc_team_points(), 7);
}

#[test]
fn competition_accumulates_per_team() {
    let team = "A".to_string();
    let other = "B".to_string();
    let c = CompetitionResult::new()
        .add_win(&team)
        .add_loss(&other)
        .add_draw(&team)
        .add_draw(&other);
    assert_eq!(c.table.len(), 2);
    let a = &c.table[0];
    assert_eq!(a.0, "A");
    assert_eq!(a.1.calc_team_points(), 4);
    let b = &c.table[1];
    assert_eq!(b.0, "B");
    assert_eq!(b.1.calc_team_points(), 1);
}
