use clap::{Arg, ArgAction, ArgMatches, Command as Cli};
use curseforge::command::{parse_command, Command};

fn ids() -> Arg {
    Arg::new("ids").short('i').long("ids")
}

fn cli() -> Cli {
    Cli::new("addown")
        .subcommand_required(true)
        .subcommand(Cli::new("init"))
        .subcommand(Cli::new("view"))
        .subcommand(Cli::new("search").arg(Arg::new("name").short('f').long("filter")))
        .subcommand(Cli::new("get").arg(ids()))
        .subcommand(Cli::new("delete").arg(ids()))
        .subcommand(
            Cli::new("update")
                .arg(ids())
                .arg(Arg::new("all").short('a').long("all").action(ArgAction::SetTrue))
                .arg(Arg::new("force").short('f').long("force").action(ArgAction::SetTrue)),
        )
        .subcommand(Cli::new("exit"))
}

fn text(matches: &ArgMatches, id: &str) -> Option<String> {
    matches.get_one::<String>(id).cloned()
}

fn same(command: &Command, matches: &ArgMatches) -> bool {
    match (command, matches.subcommand()) {
        (Command::Init, Some(("init", _))) => true,
        (Command::View, Some(("view", _))) => true,
        (Command::Exit, Some(("exit", _))) => true,
        (Command::Search { name }, Some(("search", m))) => *name == text(m, "name"),
        (Command::Get { ids }, Some(("get", m))) => *ids == text(m, "ids"),
        (Command::Delete { ids }, Some(("delete", m))) => *ids == text(m, "ids"),
        (Command::Update { ids, all, force }, Some(("update", m))) => {
            *ids == text(m, "ids") && *all == m.get_flag("all") && *force == m.get_flag("force")
        }
        _ => false,
    }
}

fn lines() -> Vec<Vec<String>> {
    let names = ["init", "view", "search", "get", "delete", "update", "exit", "help2", "Init"];
    let pool = [
        "-f", "--filter", "-i", "--ids", "-a", "--all", "--force", "x", "1,2", "-", "-x", "--bogus",
        "--ids=1,2", "--ids=", "--filter=x", "--filter=x=y", "--all=x", "--all=", "--=x", "--",
        "-i1,2", "-i=1,2", "-i=", "-fx", "-f=x", "-af", "-fa", "-afi1", "-ai", "-aa", "-a=x", "-a-",
        "", "-=", "-i==", "--i", "---", "--ids x", "-i ", "-h", "--help",
    ];
    let mut all: Vec<Vec<String>> = Vec::new();
    for name in names {
        all.push(vec![name.to_string()]);
        for a in pool {
            all.push(vec![name.to_string(), a.to_string()]);
            for b in pool {
                all.push(vec![name.to_string(), a.to_string(), b.to_string()]);
            }
        }
    }
    for tail in [
        ["-i", "1", "-a", "-f"],
        ["-a", "-f", "-i", "1"],
        ["--force", "--ids", "1,2", "--all"],
        ["-i", "1", "-a", "-a"],
        ["-i", "1", "-i", "2"],
        ["-f", "-i", "-a", "x"],
        ["-af", "-i", "1,2", "--"],
        ["-a", "--ids=7", "-f", "--"],
        ["-fi", "7", "--all", "--"],
        ["-i7", "-a", "--", "-f"],
    ] {
        let mut line = vec!["update".to_string()];
        line.extend(tail.iter().map(|t| t.to_string()));
        all.push(line);
    }
    all
}

#[test]
fn grammar_agrees_with_a_command_line_parser() {
    let mut accepted = 0;
    for line in lines() {
        let ours = parse_command(&line);
        let mut full = vec!["addown".to_string()];
        full.extend(line.iter().cloned());
        let theirs = cli().try_get_matches_from(full);
        match (&ours, &theirs) {
            (Ok(command), Ok(matches)) => {
                assert!(same(command, matches), "{:?}", line);
                accepted += 1;
            }
            (Err(_), Err(_)) => {}
            _ => panic!("{:?}: {:?} against {:?}", line, ours, theirs.map(|_| ())),
        }
    }
    assert_eq!(accepted, 214);
}
