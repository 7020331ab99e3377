use servex::handlerx::{Context, CreateContext, ExecStep, HandlerRegistry, ReadContext};

#[derive(Debug)]
struct Resources;

#[derive(Debug)]
struct MyData {
    foo: String,
}

type Input = Context<MyData, Resources>;
type HandlerFn = fn(&mut Input) -> Result<(), String>;

/// Runs every handler of the registry the way the service does, returning
/// the positions that ran and the result.
fn run(registry: &HandlerRegistry<HandlerFn>, input: &mut Input) -> (Vec<usize>, Result<(), String>) {
    let mut ran = Vec::new();
    let mut step = registry.start();
    loop {
        match step {
            ExecStep::Run(i) => {
                ran.push(i);
                let outcome = (registry.handler(i))(input);
                step = registry.next(i, outcome);
            }
            ExecStep::Done(r) => return (ran, r),
        }
    }
}

fn set_hello(input: &mut Input) -> Result<(), String> {
    if let Context::Create(create_context) = input {
        create_context.data.foo = "hello world".to_string();
    }
    Ok(())
}

fn append_bang(input: &mut Input) -> Result<(), String> {
    if let Context::Create(create_context) = input {
        create_context.data.foo.push('!');
    }
    Ok(())
}

fn fail(_input: &mut Input) -> Result<(), String> {
    Err("refused".to_string())
}

#[test]
fn can_build_registry() {
    let mut registry: HandlerRegistry<HandlerFn> = HandlerRegistry::new();
    registry.register(set_hello);
    let mut input = Context::Create(CreateContext { data: MyData { foo: "init".to_string() }, resources: Resources });
    let (_ran, result) = run(&registry, &mut input);
    result.unwrap();
    println!("{:?}", input);
    match input {
        Context::Create(c) => assert_eq!(c.data.foo, "hello world"),
        _ => panic!("context changed kind"),
    }
}

#[test]
fn new_registry_is_empty_and_finishes_at_once() {
    let registry: HandlerRegistry<HandlerFn> = HandlerRegistry::new();
    assert_eq!(registry.len(), 0);
    assert!(matches!(registry.start(), ExecStep::Done(Ok(()))));
}

#[test]
fn register_appends_in_order() {
    let mut registry: HandlerRegistry<HandlerFn> = HandlerRegistry::new();
    registry.register(set_hello);
    registry.register(append_bang);
    assert_eq!(registry.len(), 2);
    let mut input = Context::Create(CreateContext { data: MyData { foo: String::new() }, resources: Resources });
    let (ran, result) = run(&registry, &mut input);
    assert_eq!(ran, vec![0, 1]);
    assert!(result.is_ok());
    match input {
        Context::Create(c) => assert_eq!(c.data.foo, "hello world!"),
        _ => panic!("context changed kind"),
    }
}

#[test]
fn run_stops_at_first_failure() {
    let mut registry: HandlerRegistry<HandlerFn> = HandlerRegistry::new();
    registry.register(append_bang);
    registry.register(fail);
    registry.register(append_bang);
    let mut input = Context::Create(CreateContext { data: MyData { foo: "x".to_string() }, resources: Resources });
    let (ran, result) = run(&registry, &mut input);
    assert_eq!(ran, vec![0, 1]);
    assert_eq!(result, Err("refused".to_string()));
    match input {
        Context::Create(c) => assert_eq!(c.data.foo, "x!"),
        _ => panic!("context changed kind"),
    }
}

#[test]
fn next_step_after_last_success_is_done() {
    let mut registry: HandlerRegistry<HandlerFn> = HandlerRegistry::new();
    registry.register(fail);
    assert!(matches!(registry.start(), ExecStep::Run(0)));
    assert!(matches!(registry.next(0, Ok(())), ExecStep::Done(Ok(()))));
    assert!(matches!(registry.next(0, Err("e".to_string())), ExecStep::Done(Err(ref e)) if e == "e"));
}

#[test]
fn read_context_runs_handlers_unchanged() {
    let mut registry: HandlerRegistry<HandlerFn> = HandlerRegistry::new();
    registry.register(set_hello);
    let mut input: Input = Context::Read(ReadContext { resources: Resources });
    let (ran, result) = run(&registry, &mut input);
    assert_eq!(ran, vec![0]);
    assert!(result.is_ok());
    assert!(matches!(input, Context::Read(_)));
}
