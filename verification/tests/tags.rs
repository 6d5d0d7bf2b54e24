use liquid::context::Context;
use liquid::parser::BlockKind;
use liquid::parser::BreakTag;
use liquid::parser::ContinueTag;
use liquid::parser::ForBlock;
use liquid::parser::IfBlock;
use liquid::parser::IfChangedBlock;
use liquid::parser::TagKind;
use liquid::registry::Language;

fn options() -> Language {
    let mut options = Language::new();
    options.tags.register("break".to_string(), TagKind::Break(BreakTag::new()));
    options.tags.register("continue".to_string(), TagKind::Continue(ContinueTag::new()));
    options.blocks.register("for".to_string(), BlockKind::For(ForBlock::new()));
    options.blocks.register("if".to_string(), BlockKind::If(IfBlock::new()));
    options.blocks.register("ifchanged".to_string(), BlockKind::IfChanged(IfChangedBlock::new()));
    options
}

#[test]
fn test_simple_break() {
    let text = "{% for i in (0..10) %}enter-{{i}};{% if i == 2 %}break-{{i}}\n{% break %}{% endif %}exit-{{i}}\n{% endfor %}";
    let template = liquid::parser::parse(text, &options()).unwrap();

    let mut ctx = Context::new();
    let output = template.render(&mut ctx).unwrap();
    assert_eq!(output, "enter-0;exit-0\nenter-1;exit-1\nenter-2;break-2\n");
}

#[test]
fn test_nested_break() {
    // a break terminates only the innermost loop
    let text = "{% for outer in (0..3) %}enter-{{outer}}; {% for inner in (6..10) %}{% if inner == 8 %}break, {% break %}{% endif %}{{ inner }}, {% endfor %}exit-{{outer}}\n{% endfor %}";
    let template = liquid::parser::parse(text, &options()).unwrap();

    let mut ctx = Context::new();
    let output = template.render(&mut ctx).unwrap();
    assert_eq!(
        output,
        "enter-0; 6, 7, break, exit-0\nenter-1; 6, 7, break, exit-1\nenter-2; 6, 7, break, exit-2\nenter-3; 6, 7, break, exit-3\n"
    );
}

#[test]
fn test_simple_continue() {
    let text = "{% for i in (0..5) %}enter-{{i}};{% if i == 2 %}continue-{{i}}\n{% continue %}{% endif %}exit-{{i}}\n{% endfor %}";
    let template = liquid::parser::parse(text, &options()).unwrap();

    let mut ctx = Context::new();
    let output = template.render(&mut ctx).unwrap();
    assert_eq!(
        output,
        "enter-0;exit-0\nenter-1;exit-1\nenter-2;continue-2\nenter-3;exit-3\nenter-4;exit-4\nenter-5;exit-5\n"
    );
}

#[test]
fn test_nested_continue() {
    // a continue skips only the rest of the innermost iteration
    let text = "{% for outer in (0..3) %}enter-{{outer}}; {% for inner in (6..10) %}{% if inner == 8 %}continue, {% continue %}{% endif %}{{ inner }}, {% endfor %}exit-{{outer}}\n{% endfor %}";
    let template = liquid::parser::parse(text, &options()).unwrap();

    let mut ctx = Context::new();
    let output = template.render(&mut ctx).unwrap();
    assert_eq!(
        output,
        "enter-0; 6, 7, continue, 9, 10, exit-0\nenter-1; 6, 7, continue, 9, 10, exit-1\nenter-2; 6, 7, continue, 9, 10, exit-2\nenter-3; 6, 7, continue, 9, 10, exit-3\n"
    );
}

#[test]
fn test_ifchanged_block() {
    let text = "{% for a in (0..10) %}{% ifchanged %}\nHey! {% if a > 5 %}Numbers are now bigger than 5!{% endif %}{% endifchanged %}{% endfor %}";
    let template = liquid::parser::parse(text, &options()).unwrap();

    let mut context = Context::new();
    let output = template.render(&mut context).unwrap();
    assert_eq!(output, "\nHey! \nHey! Numbers are now bigger than 5!");
}
