use planner::clock::Instant;
use planner::plan::{Fault, Plan};
use planner::store::{delete_at, line_for, load, render, split_lines, Rewrite};

fn plan(n: usize) -> Plan {
    Plan::new(
        format!("plan {}", n),
        format!("line one\nline two of \"{}\"", n),
        Instant::new(1_704_067_200 + n as i64, 0).unwrap(),
    )
    .unwrap()
}

fn same(a: &[Plan], b: &[Plan]) -> bool {
    a.len() == b.len()
        && a.iter().zip(b.iter()).all(|(x, y)| {
            x.title == y.title
                && x.description == y.description
                && x.created_utc == y.created_utc
                && x.created_local == y.created_local
        })
}

/// A disk whose steps can be made to fail.
struct Disk {
    store: String,
    side: Option<String>,
    steps: usize,
    fails_at: Option<usize>,
}

impl Disk {
    fn step(&mut self, state: Rewrite, text: &str) -> bool {
        let fails = self.fails_at == Some(self.steps);
        self.steps += 1;
        match state {
            Rewrite::Staging => {
                if fails {
                    self.side = Some(text[..text.len() / 2].to_string());
                } else {
                    self.side = Some(text.to_string());
                }
            }
            Rewrite::Swapping => {
                if !fails {
                    self.store = self.side.take().unwrap();
                }
            }
            _ => panic!("no step is due"),
        }
        !fails
    }

    fn rewrite(&mut self, text: &str) -> Rewrite {
        let mut state = Rewrite::start();
        while state.pending() {
            let ok = self.step(state, text);
            state = state.after(ok);
        }
        state
    }
}

#[test]
fn an_empty_text_holds_no_plan() {
    assert!(load("").unwrap().is_empty());
    assert_eq!(render(&Vec::new()), "");
    assert!(split_lines("").is_empty());
}

#[test]
fn lines_end_at_line_breaks() {
    assert_eq!(split_lines("a\nb\n"), vec!["a", "b"]);
    assert_eq!(split_lines("a\nb"), vec!["a", "b"]);
    assert_eq!(split_lines("a\n\nb\n"), vec!["a", "", "b"]);
    assert_eq!(split_lines("\n"), vec![""]);
    assert_eq!(split_lines("\n\n"), vec!["", ""]);
    assert_eq!(split_lines("a\r\nb"), vec!["a\r", "b"]);
    assert_eq!(split_lines("é😀\n漢"), vec!["é😀", "漢"]);
}

#[test]
fn append_then_load_gives_the_plans_in_order() {
    let mut text = String::new();
    let mut added: Vec<Plan> = Vec::new();
    for n in 0..7 {
        let p = plan(n);
        let before = text.clone();
        text.push_str(&line_for(&p));
        assert!(text.starts_with(&before));
        added.push(p);
        assert!(same(&load(&text).unwrap(), &added));
        assert_eq!(render(&added), text);
    }
    assert_eq!(text.lines().count(), 7);
}

#[test]
fn line_for_is_the_encoding_and_a_line_break() {
    let p = plan(3);
    assert_eq!(line_for(&p), format!("{}\n", p.encode()));
    assert!(!p.encode().contains('\n'));
}

#[test]
fn load_takes_a_last_line_without_a_break() {
    let text = format!("{}\n{}", plan(0).encode(), plan(1).encode());
    assert!(same(&load(&text).unwrap(), &[plan(0), plan(1)]));
    let text = format!("{}\r\n{}\r\n", plan(0).encode(), plan(1).encode());
    assert!(same(&load(&text).unwrap(), &[plan(0), plan(1)]));
}

#[test]
fn load_fails_on_the_first_line_that_is_no_record() {
    let text = format!("{}\nnot a record\n{{\"title\":\"x\"}}\n{}\n", plan(0).encode(), plan(1).encode());
    let e = load(&text).unwrap_err();
    assert_eq!(e.index, 1);
    assert_eq!(e.error.line, "not a record");
    assert_eq!(e.error.fault, Fault::Syntax);

    let text = format!("{}\n{{\"title\":\"x\"}}\nnot a record\n", plan(0).encode());
    let e = load(&text).unwrap_err();
    assert_eq!(e.index, 1);
    assert_eq!(e.error.line, "{\"title\":\"x\"}");
    assert_eq!(e.error.fault, Fault::Fields);

    let text = format!("{}\n\n{}\n", plan(0).encode(), plan(1).encode());
    let e = load(&text).unwrap_err();
    assert_eq!(e.index, 1);
    assert_eq!(e.error.line, "");

    let e = load("\n").unwrap_err();
    assert_eq!(e.index, 0);
}

#[test]
fn delete_takes_one_plan_out_and_keeps_the_order() {
    for index in 0..5 {
        let mut plans: Vec<Plan> = (0..5).map(plan).collect();
        let text = delete_at(&mut plans, index);
        let expected: Vec<Plan> = (0..5).filter(|n| *n != index).map(plan).collect();
        assert_eq!(plans.len(), 4);
        assert!(same(&plans, &expected));
        assert!(same(&load(&text).unwrap(), &plans));
        assert_eq!(text, render(&expected));
    }
}

#[test]
fn delete_of_the_only_plan_leaves_an_empty_store() {
    let mut plans = vec![plan(0)];
    assert_eq!(delete_at(&mut plans, 0), "");
    assert!(plans.is_empty());
}

#[test]
fn rewrite_goes_through_its_steps() {
    assert_eq!(Rewrite::start(), Rewrite::Staging);
    assert_eq!(Rewrite::Staging.after(true), Rewrite::Swapping);
    assert_eq!(Rewrite::Staging.after(false), Rewrite::Failed);
    assert_eq!(Rewrite::Swapping.after(true), Rewrite::Done);
    assert_eq!(Rewrite::Swapping.after(false), Rewrite::Failed);
    assert_eq!(Rewrite::Done.after(true), Rewrite::Done);
    assert_eq!(Rewrite::Done.after(false), Rewrite::Done);
    assert_eq!(Rewrite::Failed.after(true), Rewrite::Failed);
    assert_eq!(Rewrite::Failed.after(false), Rewrite::Failed);
    assert!(Rewrite::Staging.pending());
    assert!(Rewrite::Swapping.pending());
    assert!(!Rewrite::Done.pending());
    assert!(!Rewrite::Failed.pending());
}

#[test]
fn a_delete_that_is_interrupted_leaves_the_store_as_it_was() {
    let before: Vec<Plan> = (0..4).map(plan).collect();
    for fails_at in [Some(0), Some(1)] {
        let mut plans: Vec<Plan> = (0..4).map(plan).collect();
        let mut disk = Disk { store: render(&before), side: None, steps: 0, fails_at };
        let text = delete_at(&mut plans, 2);
        assert_eq!(disk.rewrite(&text), Rewrite::Failed);
        assert!(same(&load(&disk.store).unwrap(), &before));
    }
}

#[test]
fn a_delete_that_is_done_leaves_the_new_store() {
    let mut plans: Vec<Plan> = (0..4).map(plan).collect();
    let mut disk = Disk { store: render(&plans), side: Some("left over".to_string()), steps: 0, fails_at: None };
    let text = delete_at(&mut plans, 2);
    assert_eq!(disk.rewrite(&text), Rewrite::Done);
    assert_eq!(disk.steps, 2);
    assert_eq!(disk.side, None);
    assert!(same(&load(&disk.store).unwrap(), &plans));
    assert_eq!(plans.len(), 3);
}
