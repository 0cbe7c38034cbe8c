use ffuf_parts::command::{engine_args, output_args, plan_part, run_args, split_args, Target};

fn strings(v: &[&str]) -> Vec<String> {
    v.iter().map(|s| s.to_string()).collect()
}

#[test]
fn shared_args_for_url() {
    let extra = strings(&["-mc", "200", "-fs", "0"]);
    let r = engine_args(&Target::Url("http://h/FUZZ".to_string()), "100", &extra);
    assert_eq!(r, strings(&["-u", "http://h/FUZZ", "-rate", "100", "-of", "csv", "-mc", "200", "-fs", "0"]));
}

#[test]
fn shared_args_for_request() {
    let r = engine_args(&Target::Request("req.txt".to_string()), "50", &Vec::new());
    assert_eq!(r, strings(&["-request", "req.txt", "-rate", "50", "-of", "csv"]));
}

#[test]
fn run_args_without_token() {
    let shared = strings(&["-u", "x", "-rate", "1", "-of", "csv"]);
    let out = strings(&["-o", "/h/f.txt"]);
    let r = run_args(None, &shared, &out);
    assert_eq!(r, strings(&["-u", "x", "-rate", "1", "-of", "csv", "-w", "-", "-o", "/h/f.txt"]));
}

#[test]
fn run_args_with_token() {
    let shared = strings(&["-u", "x"]);
    let out = strings(&["-o", "/h/f.txt"]);
    let r = run_args(Some("abc"), &shared, &out);
    assert_eq!(r, strings(&["-H", "Authorization: abc", "-u", "x", "-w", "-", "-o", "/h/f.txt"]));
}

#[test]
fn split_args_name_the_slice() {
    assert_eq!(split_args(1, 7, "words.txt"), strings(&["-n", "l/1/7", "words.txt"]));
    assert_eq!(split_args(12, 14, "/w/big list"), strings(&["-n", "l/12/14", "/w/big list"]));
}

#[test]
fn output_file_under_home() {
    assert_eq!(
        output_args("/home/u", "1700000000.5s"),
        strings(&["-o", "/home/u/recon/results/jwt/_1700000000.5s_.txt"])
    );
}

#[test]
fn plan_for_one_part() {
    let shared = strings(&["-u", "x"]);
    let out = strings(&["-o", "/h/f.txt"]);
    let plan = plan_part(3, 7, "w.txt", Some("t"), &shared, &out);
    assert_eq!(plan.split, strings(&["-n", "l/3/7", "w.txt"]));
    assert_eq!(plan.engine, strings(&["-H", "Authorization: t", "-u", "x", "-w", "-", "-o", "/h/f.txt"]));
    let plan = plan_part(7, 7, "w.txt", None, &shared, &out);
    assert_eq!(plan.split, strings(&["-n", "l/7/7", "w.txt"]));
    assert_eq!(plan.engine, strings(&["-u", "x", "-w", "-", "-o", "/h/f.txt"]));
}
