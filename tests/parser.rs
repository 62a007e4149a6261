use ion_shell::parser::{parse, parse_script, try_parse, Comparitor, ParseError, Statement};
use ion_shell::pipeline::{Job, JobKind, Pipeline, Redirection};

fn strings(words: &[&str]) -> Vec<String> {
    words.iter().map(|w| w.to_string()).collect()
}

#[test]
fn full_script() {
    parse_script(
        r#"if a == a
  echo true a == a

  if b != b
    echo true b != b
  else
    echo false b != b

    if 3 > 2
      echo true 3 > 2
    else
      echo false 3 > 2
    fi
  fi
else
  echo false a == a
fi
"#,
    )
    .unwrap(); // Make sure it parses
}

#[test]
fn leading_and_trailing_junk() {
    parse_script(
        r#"

# comment
   # comment


    if a == a
  echo true a == a  # Line ending commment

  if b != b
    echo true b != b
  else
    echo false b != b

    if 3 > 2
      echo true 3 > 2
    else
      echo false 3 > 2
    fi
  fi
else
  echo false a == a
      fi

# comment

"#,
    )
    .unwrap(); // Make sure it parses
}

#[test]
fn parsing_ifs() {
    // Default case where spaced normally
    let parsed_if = parse("if 1 == 2");
    let correct_parse = Statement::If {
        left: "1".to_string(),
        comparitor: Comparitor::Equal,
        right: "2".to_string(),
    };
    assert_eq!(correct_parse, parsed_if);

    // Trailing spaces after final value
    let parsed_if = parse("if 1 == 2         ");
    let correct_parse = Statement::If {
        left: "1".to_string(),
        comparitor: Comparitor::Equal,
        right: "2".to_string(),
    };
    assert_eq!(correct_parse, parsed_if);

    // Default case where spaced normally
    let parsed_if = parse("if 1 <= 2");
    let correct_parse = Statement::If {
        left: "1".to_string(),
        comparitor: Comparitor::LessThanOrEqual,
        right: "2".to_string(),
    };
    assert_eq!(correct_parse, parsed_if);
}

#[test]
fn parsing_elses() {
    let correct_parse = Statement::Else;
    assert_eq!(correct_parse, parse("else"));
    assert_eq!(correct_parse, parse("else         "));
    assert_eq!(correct_parse, parse("         else"));
}

#[test]
fn parsing_ends() {
    let correct_parse = Statement::End;
    assert_eq!(correct_parse, parse("end"));
    assert_eq!(correct_parse, parse("end         "));
    assert_eq!(correct_parse, parse("         end"));
}

#[test]
fn parsing_functions() {
    let correct_parse = Statement::Function { name: "bob".to_string(), args: vec![] };
    assert_eq!(correct_parse, parse("fn bob"));
    assert_eq!(correct_parse, parse("fn bob        "));
    assert_eq!(correct_parse, parse("         fn bob"));

    let correct_parse = Statement::Function { name: "bob".to_string(), args: strings(&["a", "b"]) };
    assert_eq!(correct_parse, parse("fn bob a b"));
    assert_eq!(correct_parse, parse("fn bob a b       "));
    assert_eq!(correct_parse, parse("         fn bob a b"));
}

#[test]
fn if_with_leading_tabs_and_blank_lines() {
    let correct_parse = Statement::If {
        left: "1".to_string(),
        comparitor: Comparitor::Equal,
        right: "2".to_string(),
    };
    assert_eq!(correct_parse, parse("\t  if 1 == 2 \t\r"));
    assert_eq!(correct_parse, parse("\n# a comment\n  if 1 == 2  # trailing\n\n"));
}

#[test]
fn every_comparitor() {
    let cases = [
        ("==", Comparitor::Equal),
        ("!=", Comparitor::NotEqual),
        (">", Comparitor::GreaterThan),
        ("<", Comparitor::LessThan),
        (">=", Comparitor::GreaterThanOrEqual),
        ("<=", Comparitor::LessThanOrEqual),
    ];
    for (text, comparitor) in cases {
        let expected = Statement::If { left: "a".to_string(), comparitor, right: "b".to_string() };
        assert_eq!(expected, parse(&format!("if a {} b", text)));
    }
}

#[test]
fn fi_is_a_terminator() {
    assert_eq!(Statement::End, parse("fi"));
}

#[test]
fn pipeline_operators_set_job_kinds() {
    let parsed = parse("cat a | grep b && echo ok || echo no");
    let expected = Statement::Pipelines(vec![Pipeline::new(
        vec![
            Job::new(strings(&["cat", "a"]), JobKind::Pipe),
            Job::new(strings(&["grep", "b"]), JobKind::And),
            Job::new(strings(&["echo", "ok"]), JobKind::Or),
            Job::new(strings(&["echo", "no"]), JobKind::And),
        ],
        None,
        None,
    )]);
    assert_eq!(expected, parsed);
}

#[test]
fn background_and_sequence() {
    let parsed = parse("sleep 5 & ; ls");
    let expected = Statement::Pipelines(vec![
        Pipeline::new(vec![Job::new(strings(&["sleep", "5"]), JobKind::Background)], None, None),
        Pipeline::new(vec![Job::new(strings(&["ls"]), JobKind::And)], None, None),
    ]);
    assert_eq!(expected, parsed);
}

#[test]
fn redirections() {
    let parsed = parse("sort < in.txt > out.txt");
    let expected = Statement::Pipelines(vec![Pipeline::new(
        vec![Job::new(strings(&["sort"]), JobKind::And)],
        Some(Redirection { file: "in.txt".to_string(), append: false }),
        Some(Redirection { file: "out.txt".to_string(), append: false }),
    )]);
    assert_eq!(expected, parsed);

    let parsed = parse("echo hi >> log");
    let expected = Statement::Pipelines(vec![Pipeline::new(
        vec![Job::new(strings(&["echo", "hi"]), JobKind::And)],
        None,
        Some(Redirection { file: "log".to_string(), append: true }),
    )]);
    assert_eq!(expected, parsed);
}

#[test]
fn blank_and_comment_text_is_empty() {
    assert_eq!(Statement::Pipelines(vec![]), parse(""));
    assert_eq!(Statement::Pipelines(vec![]), parse("   \n# only a comment\n"));
}

#[test]
fn syntax_errors_degrade_to_empty() {
    assert_eq!(Statement::Pipelines(vec![]), parse("if 1 2"));
    assert_eq!(Statement::Pipelines(vec![]), parse("| grep a"));
    assert_eq!(Statement::Pipelines(vec![]), parse("ls |"));
    assert_eq!(Statement::Pipelines(vec![]), parse("ls >"));
    assert_eq!(Statement::Pipelines(vec![]), parse("> out"));
    assert_eq!(Statement::Pipelines(vec![]), parse("fn"));
    assert_eq!(Statement::Pipelines(vec![]), parse("else now"));
}

#[test]
fn try_parse_errors() {
    assert_eq!(Err(ParseError::Syntax { line: 1 }), try_parse("\nif a"));
    assert_eq!(Err(ParseError::ManyStatements), try_parse("ls\nls"));
}

#[test]
fn script_errors() {
    assert_eq!(Err(ParseError::UnexpectedElse { line: 0 }), parse_script("else\n"));
    assert_eq!(Err(ParseError::UnexpectedElse { line: 2 }), parse_script("if a == b\nelse\nelse\nend"));
    assert_eq!(Err(ParseError::UnexpectedElse { line: 1 }), parse_script("fn f\nelse\nend"));
    assert_eq!(Err(ParseError::UnexpectedEnd { line: 1 }), parse_script("ls\nend"));
    assert_eq!(Err(ParseError::Unclosed), parse_script("if a == b\nls"));
    assert_eq!(Err(ParseError::Syntax { line: 1 }), parse_script("ls\nif a\nend"));
}

#[test]
fn script_statements() {
    let parsed = parse_script("fn greet name\n  echo hi\nend\n").unwrap();
    assert_eq!(
        vec![
            Statement::Function { name: "greet".to_string(), args: strings(&["name"]) },
            Statement::Pipelines(vec![Pipeline::new(
                vec![Job::new(strings(&["echo", "hi"]), JobKind::And)],
                None,
                None
            )]),
            Statement::End,
        ],
        parsed
    );
}
