//! The programs, stacks and circuit keys of a process, and the counting of calls.

use aleo_process::error::Error;
use aleo_process::keys::{
    CircuitKey, CircuitKeys, MadeKey, ProvingKey, UniversalSRS, VerifyingKey,
};
use aleo_process::names::{Identifier, Locator, ProgramID};
use aleo_process::process::Process;
use aleo_process::program::{
    Call, CallOperator, Closure, Function, Instruction, Operand, Program, Register, ValueType,
};
use aleo_process::stack::Stack;

fn id(name: &str) -> ProgramID {
    ProgramID { name: name.to_string() }
}

fn name(name: &str) -> Identifier {
    Identifier { name: name.to_string() }
}

fn call(target: &str) -> Instruction {
    let operator = match target.split_once('/') {
        Some((program, resource)) => {
            CallOperator::Locator(Locator { program_id: id(program), resource: name(resource) })
        }
        None => CallOperator::Resource(name(target)),
    };
    Instruction::Call(Call { operator, operands: vec![], destinations: vec![] })
}

fn other(text: &str) -> Instruction {
    Instruction::Other(text.to_string())
}

fn function(title: &str, instructions: Vec<Instruction>) -> Function {
    Function {
        name: name(title),
        inputs: vec![Register { name: "r0".to_string() }],
        input_types: vec![ValueType { name: "u32.public".to_string() }],
        instructions,
        outputs: vec![Operand { name: "r0".to_string() }],
        output_types: vec![ValueType { name: "u32.private".to_string() }],
    }
}

fn program(title: &str, imports: &[&str], functions: Vec<Function>) -> Program {
    Program {
        id: id(title),
        imports: imports.iter().map(|import| id(import)).collect(),
        closures: vec![],
        functions,
    }
}

fn keys(byte: u8) -> (ProvingKey, VerifyingKey) {
    (ProvingKey { bytes: vec![byte, 1] }, VerifyingKey { bytes: vec![byte, 2] })
}

fn process() -> Process<3> {
    Process::new().unwrap()
}

#[test]
fn a_new_process_is_empty() {
    let process = process();
    assert!(!process.contains_program(&id("token.aleo")));
    assert_eq!(
        process.get_program(&id("token.aleo")),
        Err(Error::ProgramNotFound(id("token.aleo")))
    );
    assert_eq!(
        process.get_stack(&id("token.aleo")).err(),
        Some(Error::StackNotFound(id("token.aleo")))
    );
    assert_eq!(process.get_universal_srs(), None);
}

#[test]
fn a_process_keeps_its_universal_srs() {
    let srs = UniversalSRS { bytes: vec![1, 2, 3] };
    let process: Process<3> = Process::from_universal_srs(srs).unwrap();
    assert_eq!(process.get_universal_srs(), Some(&UniversalSRS { bytes: vec![1, 2, 3] }));
    assert!(!process.contains_program(&id("token.aleo")));
}

#[test]
fn an_added_program_is_found_with_its_stack() {
    let mut process = process();
    let token = || program("token.aleo", &[], vec![function("mint", vec![other("add")])]);
    process.add_program(token()).unwrap();
    assert!(process.contains_program(&id("token.aleo")));
    assert!(!process.contains_program(&id("token")));
    assert_eq!(process.get_program(&id("token.aleo")), Ok(&token()));
    let stack = process.get_stack(&id("token.aleo")).unwrap();
    assert_eq!(*stack.program, token());
    assert_eq!(stack.external_programs.len(), 0);
    assert_eq!(stack.get_function(&name("mint")), Ok(&function("mint", vec![other("add")])));
    assert_eq!(
        stack.get_function(&name("burn")),
        Err(Error::FunctionNotFound(name("burn")))
    );
}

#[test]
fn programs_and_stacks_are_there_together() {
    let mut process = process();
    process.add_program(program("a.aleo", &[], vec![])).unwrap();
    process.add_program(program("b.aleo", &["a.aleo"], vec![])).unwrap();
    for title in ["a.aleo", "b.aleo", "c.aleo"] {
        let known = process.contains_program(&id(title));
        assert_eq!(known, title != "c.aleo");
        assert_eq!(known, process.get_program(&id(title)).is_ok());
        assert_eq!(known, process.get_stack(&id(title)).is_ok());
        if known {
            let stack = process.get_stack(&id(title)).unwrap();
            assert_eq!(process.get_program(&id(title)), Ok(&*stack.program));
        }
    }
}

#[test]
fn a_stack_shares_the_programs_that_it_imports() {
    let mut process = process();
    let token = || program("token.aleo", &[], vec![function("mint", vec![])]);
    process.add_program(token()).unwrap();
    process.add_program(program("wallet.aleo", &["token.aleo"], vec![])).unwrap();
    let stack = process.get_stack(&id("wallet.aleo")).unwrap();
    assert_eq!(stack.external_programs.len(), 1);
    assert_eq!(**stack.get_external_program(&id("token.aleo")).unwrap(), token());
    assert_eq!(
        stack.get_external_program(&id("wallet.aleo")),
        Err(Error::ExternalProgramNotFound(id("wallet.aleo")))
    );
}

#[test]
fn an_added_program_leaves_the_others_as_they_were() {
    let mut process = process();
    process
        .add_program(program(
            "a.aleo",
            &[],
            vec![function("leaf", vec![]), function("root", vec![call("leaf"), call("leaf")])],
        ))
        .unwrap();
    let (proving_key, verifying_key) = keys(1);
    process.insert_key(&id("a.aleo"), &name("root"), proving_key, verifying_key);
    let count = process.get_number_of_calls(&id("a.aleo"), &name("root"));
    process
        .add_program(program("b.aleo", &["a.aleo"], vec![function("leaf", vec![call("a.aleo/root")])]))
        .unwrap();
    assert_eq!(process.get_program(&id("a.aleo")).unwrap().functions.len(), 2);
    assert_eq!(process.get_proving_key(&id("a.aleo"), &name("root")), Ok(&keys(1).0));
    assert_eq!(process.get_number_of_calls(&id("a.aleo"), &name("root")), count);
    assert_eq!(count, Ok(3));
}

#[test]
fn a_program_is_added_once() {
    let mut process = process();
    process.add_program(program("token.aleo", &[], vec![function("mint", vec![])])).unwrap();
    assert_eq!(
        process.add_program(program("token.aleo", &["none.aleo"], vec![])),
        Err(Error::ProgramExists(id("token.aleo")))
    );
    // The program that was there first stays.
    assert_eq!(process.get_program(&id("token.aleo")).unwrap().functions.len(), 1);
}

#[test]
fn imports_come_first() {
    let mut process = process();
    process.add_program(program("a.aleo", &[], vec![])).unwrap();
    assert_eq!(
        process.add_program(program("c.aleo", &["a.aleo", "b.aleo", "d.aleo"], vec![])),
        Err(Error::ProgramNotFound(id("b.aleo")))
    );
    assert!(!process.contains_program(&id("c.aleo")));
    // A program does not import itself.
    assert_eq!(
        process.add_program(program("c.aleo", &["c.aleo"], vec![])),
        Err(Error::ProgramNotFound(id("c.aleo")))
    );
}

#[test]
fn recursion_is_refused() {
    let mut process = process();
    assert_eq!(
        process.add_program(program(
            "loop.aleo",
            &[],
            vec![function("leaf", vec![]), function("again", vec![call("leaf"), call("again")])],
        )),
        Err(Error::UnboundedCalls(name("again")))
    );
    assert_eq!(
        process.add_program(program(
            "loop.aleo",
            &[],
            vec![function("ping", vec![call("pong")]), function("pong", vec![call("ping")])],
        )),
        Err(Error::UnboundedCalls(name("ping")))
    );
    assert!(!process.contains_program(&id("loop.aleo")));
}

#[test]
fn calls_that_nest_as_deep_as_there_are_functions_are_counted() {
    let mut process = process();
    let mut functions = vec![];
    for i in 0..20 {
        functions.push(function(&format!("f{i}"), vec![call(&format!("f{}", i + 1))]));
    }
    functions.push(function("f20", vec![]));
    process.add_program(program("deep.aleo", &[], functions)).unwrap();
    assert_eq!(process.get_number_of_calls(&id("deep.aleo"), &name("f0")), Ok(21));
    assert_eq!(process.get_number_of_calls(&id("deep.aleo"), &name("f13")), Ok(8));
    // A further program may nest deeper still.
    process
        .add_program(program(
            "deeper.aleo",
            &["deep.aleo"],
            vec![function("top", vec![call("deep.aleo/f0"), call("deep.aleo/f20")])],
        ))
        .unwrap();
    assert_eq!(process.get_number_of_calls(&id("deeper.aleo"), &name("top")), Ok(23));
}

#[test]
fn a_leaf_counts_as_one_call() {
    let mut process = process();
    let mut leaf = program("leaf.aleo", &[], vec![function("f", vec![other("add"), call("c")])]);
    leaf.closures.push(Closure {
        name: name("c"),
        inputs: vec![],
        instructions: vec![],
        outputs: vec![],
    });
    process.add_program(leaf).unwrap();
    // The call of a closure is no function call.
    assert_eq!(process.get_number_of_calls(&id("leaf.aleo"), &name("f")), Ok(1));
}

#[test]
fn calls_are_counted_through_programs() {
    let mut process = process();
    process
        .add_program(program(
            "token.aleo",
            &[],
            vec![
                function("mint", vec![]),
                function("transfer", vec![other("sub"), call("mint"), call("mint")]),
            ],
        ))
        .unwrap();
    process
        .add_program(program(
            "wallet.aleo",
            &["token.aleo"],
            vec![
                function("transfer", vec![call("token.aleo/transfer")]),
                function("both", vec![call("transfer"), call("token.aleo/mint"), call("transfer")]),
            ],
        ))
        .unwrap();
    assert_eq!(process.get_number_of_calls(&id("token.aleo"), &name("mint")), Ok(1));
    assert_eq!(process.get_number_of_calls(&id("token.aleo"), &name("transfer")), Ok(3));
    assert_eq!(process.get_number_of_calls(&id("wallet.aleo"), &name("transfer")), Ok(4));
    // One for itself, and 4 + 1 + 4 for the functions that it calls.
    assert_eq!(process.get_number_of_calls(&id("wallet.aleo"), &name("both")), Ok(10));
    let stack = process.get_stack(&id("wallet.aleo")).unwrap();
    let both = stack.get_function(&name("both")).unwrap();
    assert_eq!(stack.count_function_calls(both), Ok(3));
}

#[test]
fn a_count_that_cannot_be_made_says_why() {
    let mut process = process();
    process
        .add_program(program(
            "a.aleo",
            &[],
            vec![function("f", vec![call("none.aleo/f"), call("f")])],
        ))
        .unwrap();
    assert_eq!(
        process.get_number_of_calls(&id("none.aleo"), &name("f")),
        Err(Error::StackNotFound(id("none.aleo")))
    );
    assert_eq!(
        process.get_number_of_calls(&id("a.aleo"), &name("g")),
        Err(Error::FunctionNotFound(name("g")))
    );
    assert_eq!(
        process.get_number_of_calls(&id("a.aleo"), &name("f")),
        Err(Error::ExternalProgramNotFound(id("none.aleo")))
    );
}

#[test]
fn a_count_beyond_the_bound_is_given_up() {
    let mut process = process();
    process
        .add_program(program(
            "a.aleo",
            &[],
            vec![function("f", vec![call("g")]), function("g", vec![])],
        ))
        .unwrap();
    let stack = process.get_stack(&id("a.aleo")).unwrap();
    assert_eq!(process.count_calls(stack, &name("f"), 0), None);
    assert_eq!(process.count_calls(stack, &name("f"), 1), None);
    assert_eq!(process.count_calls(stack, &name("f"), 2), Some(Ok(2)));
    assert_eq!(process.count_calls(stack, &name("g"), 1), Some(Ok(1)));
    assert_eq!(
        process.count_calls(stack, &name("h"), 1),
        Some(Err(Error::FunctionNotFound(name("h"))))
    );
}

#[test]
fn function_calls_are_told_from_closure_calls() {
    let mut process = process();
    process.add_program(program("a.aleo", &[], vec![function("f", vec![])])).unwrap();
    process
        .add_program(program("b.aleo", &["a.aleo"], vec![function("g", vec![])]))
        .unwrap();
    let stack: &Stack = process.get_stack(&id("b.aleo")).unwrap();
    let asked = |target: &str| match call(target) {
        Instruction::Call(call) => call.is_function_call(stack),
        Instruction::Other(_) => panic!("no call"),
    };
    assert_eq!(asked("g"), Ok(true));
    assert_eq!(asked("f"), Ok(false));
    assert_eq!(asked("a.aleo/f"), Ok(true));
    assert_eq!(asked("a.aleo/g"), Ok(false));
    assert_eq!(asked("b.aleo/g"), Err(Error::ExternalProgramNotFound(id("b.aleo"))));
}

#[test]
fn an_inserted_key_is_found() {
    let mut process = process();
    process
        .add_program(program("a.aleo", &[], vec![function("f", vec![]), function("g", vec![])]))
        .unwrap();
    process.add_program(program("b.aleo", &[], vec![function("f", vec![])])).unwrap();
    assert_eq!(
        process.get_proving_key(&id("a.aleo"), &name("f")),
        Err(Error::KeyNotFound(id("a.aleo"), name("f")))
    );
    for (title, byte) in [("f", 1), ("g", 2), ("f", 3)] {
        let (proving_key, verifying_key) = keys(byte);
        process.insert_key(&id("a.aleo"), &name(title), proving_key, verifying_key);
    }
    // The last key that was inserted counts.
    assert_eq!(process.get_proving_key(&id("a.aleo"), &name("f")), Ok(&keys(3).0));
    assert_eq!(process.get_verifying_key(&id("a.aleo"), &name("f")), Ok(&keys(3).1));
    // The others stay.
    assert_eq!(process.get_proving_key(&id("a.aleo"), &name("g")), Ok(&keys(2).0));
    assert_eq!(
        process.get_verifying_key(&id("b.aleo"), &name("f")),
        Err(Error::KeyNotFound(id("b.aleo"), name("f")))
    );
}

#[test]
fn a_key_of_an_unknown_program_is_not_found() {
    let mut process = process();
    let (proving_key, verifying_key) = keys(1);
    process.insert_key(&id("a.aleo"), &name("f"), proving_key, verifying_key);
    assert_eq!(
        process.get_proving_key(&id("a.aleo"), &name("f")),
        Err(Error::StackNotFound(id("a.aleo")))
    );
    // It is there once the program is.
    process.add_program(program("a.aleo", &[], vec![])).unwrap();
    assert_eq!(process.get_proving_key(&id("a.aleo"), &name("f")), Ok(&keys(1).0));
}

#[test]
fn a_synthesized_key_is_found() {
    let srs = UniversalSRS { bytes: vec![9] };
    let mut process: Process<3> = Process::from_universal_srs(srs).unwrap();
    process.add_program(program("a.aleo", &[], vec![function("f", vec![])])).unwrap();
    let answer = process.synthesize_key(&id("a.aleo"), &name("f"), |stack, title, srs| {
        assert_eq!(stack.program.id, id("a.aleo"));
        assert_eq!(*title, name("f"));
        assert_eq!(srs, Some(&UniversalSRS { bytes: vec![9] }));
        Ok(keys(7))
    });
    assert_eq!(answer, Ok(()));
    assert_eq!(process.get_proving_key(&id("a.aleo"), &name("f")), Ok(&keys(7).0));
    assert_eq!(process.get_verifying_key(&id("a.aleo"), &name("f")), Ok(&keys(7).1));
}

#[test]
fn a_synthesis_that_fails_leaves_no_key() {
    let mut process = process();
    let answer = process.synthesize_key(&id("a.aleo"), &name("f"), |_, _, _| {
        panic!("nothing is synthesized")
    });
    assert_eq!(answer, Err(Error::StackNotFound(id("a.aleo"))));
    process.add_program(program("a.aleo", &[], vec![function("f", vec![])])).unwrap();
    let failure = || Error::Machinery("out of memory".to_string());
    let answer = process.synthesize_key(&id("a.aleo"), &name("f"), |_, _, _| Err(failure()));
    assert_eq!(answer, Err(failure()));
    assert_eq!(
        process.get_proving_key(&id("a.aleo"), &name("f")),
        Err(Error::KeyNotFound(id("a.aleo"), name("f")))
    );
}

#[test]
fn circuit_keys_are_a_mapping() {
    let mut mapping = CircuitKeys::new();
    assert_eq!(mapping.get(&id("a.aleo"), &name("f")), None);
    let key = |byte: u8| CircuitKey { proving_key: keys(byte).0, verifying_key: keys(byte).1 };
    mapping.insert(&id("a.aleo"), &name("f"), key(1));
    mapping.insert(&id("a.aleo"), &name("f"), key(2));
    mapping.insert(&id("a.aleof"), &name(""), key(3));
    assert_eq!(mapping.get(&id("a.aleo"), &name("f")), Some(&key(2)));
    assert_eq!(mapping.get(&id("a.aleof"), &name("")), Some(&key(3)));
    assert_eq!(mapping.get(&id("a.aleo"), &name("g")), None);
}

#[test]
fn the_info_of_a_function_is_checked() {
    let mut process = process();
    let mut uneven = function("inputs", vec![]);
    uneven.inputs.push(Register { name: "r1".to_string() });
    let mut odd = function("outputs", vec![]);
    odd.output_types.clear();
    process
        .add_program(program("a.aleo", &[], vec![function("f", vec![other("add")]), uneven, odd]))
        .unwrap();
    let (found, f, input_types, output_types) =
        process.get_function_info(&id("a.aleo"), &name("f")).unwrap();
    assert_eq!(found.id, id("a.aleo"));
    assert_eq!(*f, function("f", vec![other("add")]));
    assert_eq!(*input_types, vec![ValueType { name: "u32.public".to_string() }]);
    assert_eq!(*output_types, vec![ValueType { name: "u32.private".to_string() }]);
    assert_eq!(
        process.get_function_info(&id("b.aleo"), &name("f")).err(),
        Some(Error::ProgramNotFound(id("b.aleo")))
    );
    assert_eq!(
        process.get_function_info(&id("a.aleo"), &name("g")).err(),
        Some(Error::FunctionMissing(name("g"), id("a.aleo")))
    );
    assert_eq!(
        process.get_function_info(&id("a.aleo"), &name("inputs")).err(),
        Some(Error::InputTypes {
            function: name("inputs"),
            program: id("a.aleo"),
            inputs: 2,
            types: 1
        })
    );
    assert_eq!(
        process.get_function_info(&id("a.aleo"), &name("outputs")).err(),
        Some(Error::OutputTypes {
            function: name("outputs"),
            program: id("a.aleo"),
            outputs: 1,
            types: 0
        })
    );
}

#[test]
fn of_two_functions_of_one_name_the_first_is_meant() {
    let mut process = process();
    process
        .add_program(program(
            "a.aleo",
            &[],
            vec![function("f", vec![other("add")]), function("f", vec![other("sub")])],
        ))
        .unwrap();
    let (_, f, _, _) = process.get_function_info(&id("a.aleo"), &name("f")).unwrap();
    assert_eq!(f.instructions, vec![other("add")]);
}

#[test]
fn stacks_and_keys_can_be_copied() {
    let mut process = process();
    process.add_program(program("a.aleo", &[], vec![function("f", vec![])])).unwrap();
    process.add_program(program("b.aleo", &["a.aleo"], vec![function("g", vec![])])).unwrap();
    let (proving_key, verifying_key) = keys(4);
    process.insert_key(&id("b.aleo"), &name("g"), proving_key, verifying_key);
    let stack: Stack = process.get_stack(&id("b.aleo")).unwrap().clone();
    let proving_key = process.get_proving_key(&id("b.aleo"), &name("g")).unwrap().clone();
    let verifying_key = process.get_verifying_key(&id("b.aleo"), &name("g")).unwrap().clone();
    // The copies do not hold on to the process.
    process.add_program(program("c.aleo", &[], vec![])).unwrap();
    assert_eq!(stack.program.id, id("b.aleo"));
    assert_eq!(stack.external_programs.len(), 1);
    assert_eq!(stack.external_programs[0].id, id("a.aleo"));
    assert_eq!((proving_key, verifying_key), keys(4));
}

#[test]
fn made_keys_are_kept_in_their_order() {
    let mut process = process();
    process.add_program(program("a.aleo", &[], vec![function("f", vec![])])).unwrap();
    let made = |byte: u8| MadeKey {
        program_id: id("a.aleo"),
        function_name: name("f"),
        key: CircuitKey { proving_key: keys(byte).0, verifying_key: keys(byte).1 },
    };
    process.keep(vec![]);
    assert_eq!(
        process.get_proving_key(&id("a.aleo"), &name("f")),
        Err(Error::KeyNotFound(id("a.aleo"), name("f")))
    );
    process.keep(vec![made(1), made(2), made(3)]);
    assert_eq!(process.get_proving_key(&id("a.aleo"), &name("f")), Ok(&keys(3).0));
}
