//! Whole calls, from the program text to the verified execution. The machine that signs,
//! evaluates and proves is a small one: it hashes where a real one would do cryptography.

use std::cell::RefCell;

use aleo_process::error::Error;
use aleo_process::keys::{CircuitKey, MadeKey, ProvingKey, VerifyingKey};
use aleo_process::names::{Identifier, Locator, ProgramID};
use aleo_process::process::Process;
use aleo_process::program::{
    Call, CallOperator, Closure, Function, Instruction, Operand, Program, Register, ValueType,
};
use aleo_process::request::{Authorization, CallStack, PrivateKey, Request, Response, Value};
use aleo_process::stack::Stack;
use aleo_process::transition::{Execution, Field, Proof, Transition, TransitionValue};
use aleo_process::verify::Checks;

const NETWORK: u16 = 3;

type CurrentProcess = Process<3>;

/*************************** Program text ***************************/

fn id(name: &str) -> ProgramID {
    ProgramID { name: name.to_string() }
}

fn name(name: &str) -> Identifier {
    Identifier { name: name.to_string() }
}

fn register(name: &str) -> Register {
    Register { name: name.to_string() }
}

fn operand(name: &str) -> Operand {
    Operand { name: name.to_string() }
}

/// A record type: its name, and the names of its entries.
#[derive(Clone)]
struct RecordType {
    name: String,
    entries: Vec<String>,
}

fn parse_call(text: &str) -> Instruction {
    let (left, right) = text.split_once(" into ").unwrap();
    let mut words = left.split_whitespace();
    assert_eq!(words.next(), Some("call"));
    let target = words.next().unwrap();
    let operator = match target.split_once('/') {
        Some((program, resource)) => {
            CallOperator::Locator(Locator { program_id: id(program), resource: name(resource) })
        }
        None => CallOperator::Resource(name(target)),
    };
    Instruction::Call(Call {
        operator,
        operands: words.map(operand).collect(),
        destinations: right.split_whitespace().map(register).collect(),
    })
}

/// Reads the text of a program, and the record types that it declares.
fn parse_program(text: &str) -> (Program, Vec<RecordType>) {
    let mut program = Program { id: id(""), imports: vec![], closures: vec![], functions: vec![] };
    let mut records: Vec<RecordType> = vec![];
    let mut section = String::new();
    for line in text.lines() {
        let line = line.split("//").next().unwrap().trim();
        if line.is_empty() {
            continue;
        }
        let line = line.trim_end_matches(';');
        if let Some(import) = line.strip_prefix("import ") {
            program.imports.push(id(import));
        } else if let Some(program_id) = line.strip_prefix("program ") {
            program.id = id(program_id);
        } else if let Some(header) = line.strip_suffix(':') {
            let (kind, title) = header.split_once(' ').unwrap();
            section = kind.to_string();
            match kind {
                "record" => records.push(RecordType { name: title.to_string(), entries: vec![] }),
                "closure" => program.closures.push(Closure {
                    name: name(title),
                    inputs: vec![],
                    instructions: vec![],
                    outputs: vec![],
                }),
                "function" => program.functions.push(Function {
                    name: name(title),
                    inputs: vec![],
                    input_types: vec![],
                    instructions: vec![],
                    outputs: vec![],
                    output_types: vec![],
                }),
                _ => panic!("unknown section"),
            }
        } else if section == "record" {
            let entry = line.split_whitespace().next().unwrap();
            records.last_mut().unwrap().entries.push(entry.to_string());
        } else if let Some(declared) = line.strip_prefix("input ") {
            let (place, kind) = declared.split_once(" as ").unwrap();
            if section == "closure" {
                program.closures.last_mut().unwrap().inputs.push(register(place));
            } else {
                let function = program.functions.last_mut().unwrap();
                function.inputs.push(register(place));
                function.input_types.push(ValueType { name: kind.to_string() });
            }
        } else if let Some(declared) = line.strip_prefix("output ") {
            let (place, kind) = declared.split_once(" as ").unwrap();
            if section == "closure" {
                program.closures.last_mut().unwrap().outputs.push(operand(place));
            } else {
                let function = program.functions.last_mut().unwrap();
                function.outputs.push(operand(place));
                function.output_types.push(ValueType { name: kind.to_string() });
            }
        } else {
            let instruction = if line.starts_with("call ") {
                parse_call(line)
            } else {
                Instruction::Other(line.to_string())
            };
            if section == "closure" {
                program.closures.last_mut().unwrap().instructions.push(instruction);
            } else {
                program.functions.last_mut().unwrap().instructions.push(instruction);
            }
        }
    }
    (program, records)
}

/*************************** Values ***************************/

#[derive(Clone, PartialEq, Debug)]
enum Datum {
    Number(u128, String),
    Address(String),
    Record(Vec<(String, Datum)>),
}

fn parse_datum(text: &str) -> Datum {
    let text = text.trim();
    if let Some(inner) = text.strip_prefix('{') {
        let inner = inner.strip_suffix('}').unwrap();
        let mut entries = vec![];
        for part in inner.split(',') {
            let (entry, value) = part.split_once(':').unwrap();
            let value = value.trim().strip_suffix(".private").unwrap();
            entries.push((entry.trim().to_string(), parse_datum(value)));
        }
        return Datum::Record(entries);
    }
    let plain: String = text.chars().filter(|c| *c != '_').collect();
    let digits: String = plain.chars().take_while(|c| c.is_ascii_digit()).collect();
    if digits.is_empty() {
        Datum::Address(text.to_string())
    } else {
        Datum::Number(digits.parse().unwrap(), plain[digits.len()..].to_string())
    }
}

fn show(datum: &Datum) -> String {
    match datum {
        Datum::Number(number, kind) => format!("{number}{kind}"),
        Datum::Address(address) => address.clone(),
        Datum::Record(entries) => {
            let parts: Vec<String> = entries
                .iter()
                .map(|(entry, value)| format!("{}: {}.private", entry, show(value)))
                .collect();
            format!("{{ {} }}", parts.join(", "))
        }
    }
}

fn value(text: &str) -> Value {
    Value { name: show(&parse_datum(text)) }
}

fn gates(datum: &Datum) -> i64 {
    match datum {
        Datum::Record(entries) => entries
            .iter()
            .map(|(entry, value)| match value {
                Datum::Number(number, _) if entry == "gates" => *number as i64,
                _ => 0,
            })
            .sum(),
        _ => 0,
    }
}

/*************************** Machine ***************************/

fn hash(parts: &[&str]) -> u128 {
    let mut state: u128 = 0x6c62_272e_07bb_0142_62b8_2175_6295_c58d;
    for part in parts {
        for byte in part.bytes().chain([0u8]) {
            state ^= byte as u128;
            state = state.wrapping_mul(0x0000_0000_0100_0000_0000_0000_0000_013b);
        }
    }
    state
}

fn field(number: u128) -> Field {
    Field { low: number, high: 0 }
}

fn sign(
    key: &PrivateKey,
    program: &ProgramID,
    function: &Identifier,
    inputs: &[Value],
    types: &Vec<ValueType>,
) -> Result<Request, Error> {
    if inputs.len() != types.len() {
        return Err(Error::Machinery("cannot sign".to_string()));
    }
    let tvk = hash(&[&program.name, &function.name, &key.bytes[0].to_string()]);
    let texts: Vec<&str> = inputs.iter().map(|input| input.name.as_str()).collect();
    Ok(Request {
        network_id: NETWORK,
        program_id: program.clone(),
        function_name: function.clone(),
        inputs: inputs.to_vec(),
        tvk: field(tvk),
        signature: hash(&texts).to_le_bytes().to_vec(),
    })
}

fn verify_request(request: &Request, types: &Vec<ValueType>) -> bool {
    let texts: Vec<&str> = request.inputs.iter().map(|input| input.name.as_str()).collect();
    request.inputs.len() == types.len()
        && request.signature == hash(&texts).to_le_bytes().to_vec()
}

fn key_of(program: &ProgramID, function: &Identifier) -> (ProvingKey, VerifyingKey) {
    let bytes = hash(&[&program.name, &function.name]).to_le_bytes().to_vec();
    (ProvingKey { bytes: bytes.clone() }, VerifyingKey { bytes })
}

fn prove(key: &VerifyingKey, function: &Identifier, inputs: &[Field]) -> Proof {
    let mut texts = vec![format!("{:?}", key.bytes), function.name.clone()];
    texts.extend(inputs.iter().map(|input| format!("{}:{}", input.high, input.low)));
    let texts: Vec<&str> = texts.iter().map(|text| text.as_str()).collect();
    Proof { bytes: hash(&texts).to_le_bytes().to_vec() }
}

fn check(key: &VerifyingKey, function: &Identifier, inputs: &Vec<Field>, proof: &Proof) -> bool {
    *proof == prove(key, function, inputs)
}

fn is_coinbase(program: &ProgramID, function: &Identifier) -> bool {
    program.name == "stake.aleo" && function.name == "initialize"
}

fn verify_value(value: &TransitionValue) -> bool {
    match &value.content {
        Some(content) => value.id == field(hash(&[content])),
        None => true,
    }
}

fn to_field(fee: i64) -> Result<Field, Error> {
    Ok(field(fee as u64 as u128))
}

/// What a function is run for.
enum Mode {
    Evaluate,
    Authorize(PrivateKey, Vec<Request>),
    Execute(Vec<Request>, Vec<Transition>),
}

struct Machine<'a> {
    process: &'a CurrentProcess,
    records: Vec<RecordType>,
    /// The functions that were proved, for which circuit keys are wanted.
    proved: RefCell<Vec<(ProgramID, Identifier)>>,
}

fn lookup(registers: &Vec<(String, Datum)>, place: &str) -> Datum {
    if !place.starts_with('r') {
        return parse_datum(place);
    }
    let (whole, member) = match place.split_once('.') {
        Some((whole, member)) => (whole, Some(member)),
        None => (place, None),
    };
    let datum = registers.iter().find(|(at, _)| at == whole).unwrap().1.clone();
    match (member, datum) {
        (None, datum) => datum,
        (Some(member), Datum::Record(entries)) => {
            entries.into_iter().find(|(entry, _)| entry == member).unwrap().1
        }
        _ => panic!("no member"),
    }
}

impl<'a> Machine<'a> {
    /// Runs instructions. The transitions of the functions called are collected in `called`.
    fn run(
        &self,
        stack: &Stack,
        instructions: &Vec<Instruction>,
        registers: &mut Vec<(String, Datum)>,
        mode: &mut Mode,
        called: &mut Vec<Field>,
    ) -> Result<(), Error> {
        for instruction in instructions {
            match instruction {
                Instruction::Other(text) => {
                    let (left, right) = text.split_once(" into ").unwrap();
                    let words: Vec<&str> = left.split_whitespace().collect();
                    let operands: Vec<Datum> =
                        words[1..].iter().map(|place| lookup(registers, place)).collect();
                    let (place, result) = match words[0] {
                        "add" => match (&operands[0], &operands[1]) {
                            (Datum::Number(a, kind), Datum::Number(b, _)) => {
                                (right, Datum::Number(a + b, kind.clone()))
                            }
                            _ => panic!("add"),
                        },
                        "sub" => match (&operands[0], &operands[1]) {
                            (Datum::Number(a, kind), Datum::Number(b, _)) => {
                                (right, Datum::Number(a - b, kind.clone()))
                            }
                            _ => panic!("sub"),
                        },
                        "cast" => {
                            let (place, kind) = right.split_once(" as ").unwrap();
                            let kind = kind.strip_suffix(".record").unwrap();
                            let record =
                                self.records.iter().find(|record| record.name == kind).unwrap();
                            let entries = record.entries.iter().cloned().zip(operands).collect();
                            (place, Datum::Record(entries))
                        }
                        _ => panic!("unknown instruction"),
                    };
                    registers.push((place.to_string(), result));
                }
                Instruction::Call(call) => {
                    let inputs: Vec<Datum> =
                        call.operands.iter().map(|at| lookup(registers, &at.name)).collect();
                    let outputs = if call.is_function_call(stack)? {
                        let (other, resource) = match &call.operator {
                            CallOperator::Locator(locator) => {
                                (self.process.get_stack(&locator.program_id)?, &locator.resource)
                            }
                            CallOperator::Resource(resource) => (stack, resource),
                        };
                        let function = other.get_function(resource)?;
                        let values = values(&inputs);
                        if let Mode::Authorize(key, requests) = mode {
                            let request = sign(
                                key,
                                &other.program.id,
                                resource,
                                &values,
                                &function.input_types,
                            )?;
                            requests.push(request);
                        }
                        let outputs = self.call(other, function, inputs, mode)?;
                        if let Mode::Execute(_, transitions) = mode {
                            let transition = transitions.last().unwrap();
                            called.extend(transition.inputs.iter().map(|input| input.id));
                            called.extend(transition.outputs.iter().map(|output| output.id));
                        }
                        outputs
                    } else {
                        let resource = match &call.operator {
                            CallOperator::Resource(resource) => resource,
                            CallOperator::Locator(_) => panic!("external closure"),
                        };
                        let closures = &stack.program.closures;
                        let closure = closures.iter().find(|c| c.name == *resource).unwrap();
                        let mut inner: Vec<(String, Datum)> = closure
                            .inputs
                            .iter()
                            .map(|input| input.name.clone())
                            .zip(inputs)
                            .collect();
                        self.run(stack, &closure.instructions, &mut inner, mode, called)?;
                        closure.outputs.iter().map(|at| lookup(&inner, &at.name)).collect()
                    };
                    for (destination, output) in call.destinations.iter().zip(outputs) {
                        registers.push((destination.name.clone(), output));
                    }
                }
            }
        }
        Ok(())
    }

    /// Runs a function.
    fn call(
        &self,
        stack: &Stack,
        function: &Function,
        inputs: Vec<Datum>,
        mode: &mut Mode,
    ) -> Result<Vec<Datum>, Error> {
        let program = &stack.program.id;
        if let Mode::Execute(requests, _) = mode {
            let request = requests.remove(0);
            assert_eq!(request.program_id, *program);
            assert_eq!(request.function_name, function.name);
        }
        let mut registers: Vec<(String, Datum)> = function
            .inputs
            .iter()
            .map(|input| input.name.clone())
            .zip(inputs.iter().cloned())
            .collect();
        let mut called: Vec<Field> = vec![];
        self.run(stack, &function.instructions, &mut registers, mode, &mut called)?;
        let outputs: Vec<Datum> =
            function.outputs.iter().map(|at| lookup(&registers, &at.name)).collect();
        if let Mode::Execute(_, transitions) = mode {
            let paid: i64 = inputs.iter().map(gates).sum::<i64>();
            let left: i64 = outputs.iter().map(gates).sum::<i64>();
            let fee = paid - left;
            if (fee < 0) != is_coinbase(program, &function.name) {
                return Err(Error::Machinery(format!(
                    "'{}/{}' is not satisfied on the given inputs.",
                    program.name, function.name.name
                )));
            }
            let commit = |datum: &Datum| TransitionValue {
                id: field(hash(&[&show(datum)])),
                content: Some(show(datum)),
            };
            let input_values: Vec<TransitionValue> = inputs.iter().map(commit).collect();
            let output_values: Vec<TransitionValue> = outputs.iter().map(commit).collect();
            let (tpk_x, tpk_y) = (field(7 + transitions.len() as u128), field(11));
            let mut public = vec![Field { low: 1, high: 0 }, tpk_x, tpk_y];
            public.extend(input_values.iter().map(|input| input.id));
            public.extend(called);
            public.extend(output_values.iter().map(|output| output.id));
            public.push(to_field(fee).unwrap());
            let (_, key) = key_of(program, &function.name);
            self.proved.borrow_mut().push((program.clone(), function.name.clone()));
            transitions.push(Transition {
                program_id: program.clone(),
                function_name: function.name.clone(),
                inputs: input_values,
                outputs: output_values,
                tpk_x,
                tpk_y,
                fee,
                proof: prove(&key, &function.name, &public),
            });
        }
        Ok(outputs)
    }
}

fn data(values: &Vec<Value>) -> Vec<Datum> {
    values.iter().map(|value| parse_datum(&value.name)).collect()
}

fn values(data: &Vec<Datum>) -> Vec<Value> {
    data.iter().map(|datum| Value { name: show(datum) }).collect()
}

fn synthesize(process: &mut CurrentProcess, program: &str, function: &str) -> Result<(), Error> {
    process.synthesize_key(&id(program), &name(function), |stack, function, srs| {
        assert!(srs.is_none());
        Ok(key_of(&stack.program.id, function))
    })
}

fn authorize(
    process: &CurrentProcess,
    records: &Vec<RecordType>,
    key: &PrivateKey,
    program: &ProgramID,
    function: &str,
    inputs: &Vec<Value>,
) -> Result<Authorization, Error> {
    let machine = Machine { process, records: records.clone(), proved: RefCell::new(vec![]) };
    process.authorize(key, program, name(function), inputs, sign, |stack, call_stack| {
        let (requests, key, authorization) = match call_stack {
            CallStack::Authorize(requests, key, authorization) => (requests, key, authorization),
            CallStack::Execute(_, _) => panic!("nothing is executed"),
        };
        assert_eq!(requests.len(), 1);
        assert_eq!(requests, authorization.requests);
        let function = stack.get_function(&requests[0].function_name)?;
        let mut mode = Mode::Authorize(key, authorization.requests);
        let outputs = machine.call(stack, function, data(&requests[0].inputs), &mut mode)?;
        match mode {
            Mode::Authorize(_, requests) => {
                Ok((Response { outputs: values(&outputs) }, Authorization::new(requests)))
            }
            _ => unreachable!(),
        }
    })
}

fn evaluate(
    process: &CurrentProcess,
    records: &Vec<RecordType>,
    request: &Request,
) -> Result<Response, Error> {
    let machine = Machine { process, records: records.clone(), proved: RefCell::new(vec![]) };
    process.evaluate(
        request,
        verify_request,
        |stack, function, inputs| {
            let outputs = machine.call(stack, function, data(inputs), &mut Mode::Evaluate)?;
            Ok(values(&outputs))
        },
        |program, count, tvk, outputs, types| {
            assert_eq!(*program, request.program_id);
            assert_eq!(count, request.inputs.len());
            assert_eq!(*tvk, request.tvk);
            assert_eq!(outputs.len(), types.len());
            Ok(Response { outputs })
        },
        |_, _| Ok(()),
    )
}

/// Executes an authorization. The circuit keys that this takes are made on the way.
fn execute(
    process: &mut CurrentProcess,
    records: &Vec<RecordType>,
    authorization: Authorization,
) -> Result<(Response, Execution), Error> {
    process.execute(authorization, |process, stack, call_stack| {
        let (authorization, execution) = match call_stack {
            CallStack::Execute(authorization, execution) => (authorization, execution),
            CallStack::Authorize(_, _, _) => panic!("nothing is authorized"),
        };
        let machine = Machine { process, records: records.clone(), proved: RefCell::new(vec![]) };
        let function = stack.get_function(&authorization.requests[0].function_name)?;
        let inputs = data(&authorization.requests[0].inputs);
        let mut mode = Mode::Execute(authorization.requests, execution.transitions);
        let outputs = machine.call(stack, function, inputs, &mut mode)?;
        let mut made = vec![];
        for (program_id, function_name) in machine.proved.into_inner() {
            let (proving_key, verifying_key) = key_of(&program_id, &function_name);
            let key = CircuitKey { proving_key, verifying_key };
            made.push(MadeKey { program_id, function_name, key });
        }
        match mode {
            Mode::Execute(_, transitions) => {
                Ok((Response { outputs: values(&outputs) }, Execution { transitions }, made))
            }
            _ => unreachable!(),
        }
    })
}

fn verify(process: &CurrentProcess, execution: Execution) -> Result<(), Error> {
    let checks =
        Checks { value: verify_value, coinbase: is_coinbase, fee: to_field, proof: check };
    process.verify(execution, checks)
}

fn account(number: u8) -> (PrivateKey, String) {
    (PrivateKey { bytes: [number; 32] }, format!("aleo1account{number}"))
}

/*************************** Tests ***************************/

#[test]
fn test_process_execute_genesis() {
    // Initialize a new program.
    let (program, records) = parse_program(
        r"program stake.aleo;

  record stake:
    owner as address.private;
    gates as u64.private;

  function initialize:
    input r0 as address.private;
    input r1 as u64.private;
    cast r0 r1 into r2 as stake.record;
    output r2 as stake.record;",
    );
    let program_id = program.id.clone();

    // Initialize a new caller account.
    let (caller_private_key, caller) = account(1);

    // Declare the input value.
    let r0 = value(&format!("{caller}"));
    let r1 = value("1_000_000_000_000_000_u64");

    // Declare the expected output value.
    let r2 = value(&format!(
        "{{ owner: {caller}.private, gates: 1_000_000_000_000_000_u64.private }}"
    ));

    // Construct the process.
    let mut process = CurrentProcess::new().unwrap();
    // Add the program to the process.
    process.add_program(program).unwrap();

    // Authorize the function call.
    let authorization = authorize(
        &process,
        &records,
        &caller_private_key,
        &program_id,
        "initialize",
        &vec![r0.clone(), r1.clone()],
    )
    .unwrap();
    assert_eq!(authorization.requests.len(), 1);
    let request = authorization.requests[0].clone();

    // Compute the output value.
    let response = evaluate(&process, &records, &request).unwrap();
    let candidate = response.outputs;
    assert_eq!(1, candidate.len());
    assert_eq!(r2, candidate[0]);

    // Execute the request.
    let (response, execution) = execute(&mut process, &records, authorization).unwrap();
    let candidate = response.outputs;
    assert_eq!(1, candidate.len());
    assert_eq!(r2, candidate[0]);

    assert!(verify(&process, execution).is_ok());

    // Ensure a non-special program fails.

    // Initialize a new program.
    let (program, records) = parse_program(
        r"program token.aleo;

  record token:
    owner as address.private;
    gates as u64.private;

  function initialize:
    input r0 as address.private;
    input r1 as u64.private;
    cast r0 r1 into r2 as token.record;
    output r2 as token.record;",
    );
    let program_id = program.id.clone();

    process.add_program(program).unwrap();

    let authorization = authorize(
        &process,
        &records,
        &caller_private_key,
        &program_id,
        "initialize",
        &vec![r0, r1],
    )
    .unwrap();
    let result = execute(&mut process, &records, authorization);
    assert!(result.is_err());
    assert_eq!(
        result.err().unwrap().message(),
        format!("'token.aleo/initialize' is not satisfied on the given inputs.")
    );
}

#[test]
fn test_process_circuit_key() {
    // Initialize a new program.
    let (program, _) = parse_program(
        r#"program testing.aleo;

function hello_world:
    input r0 as u32.public;
    input r1 as u32.private;
    add r0 r1 into r2;
    output r2 as u32.private;
"#,
    );
    let program_id = program.id.clone();

    // Construct the process.
    let mut process = CurrentProcess::new().unwrap();
    // Add the program to the process.
    process.add_program(program).unwrap();
    // Check that the circuit key can be synthesized.
    synthesize(&mut process, "testing.aleo", "hello_world").unwrap();

    let (proving_key, verifying_key) = key_of(&program_id, &name("hello_world"));
    assert_eq!(process.get_proving_key(&program_id, &name("hello_world")), Ok(&proving_key));
    assert_eq!(process.get_verifying_key(&program_id, &name("hello_world")), Ok(&verifying_key));
}

#[test]
fn test_process_multirecords() {
    // Initialize a new program.
    let (program, records) = parse_program(
        r"program multirecord.aleo;

  record record_a:
    owner as address.private;
    gates as u64.private;

  record record_b:
    owner as address.private;
    gates as u64.private;

  function initialize:
    input r0 as record_a.record;
    input r1 as record_b.record;
    cast r0.owner r0.gates into r2 as record_a.record;
    cast r1.owner r1.gates into r3 as record_b.record;
    output r2 as record_a.record;
    output r3 as record_b.record;",
    );
    let program_id = program.id.clone();

    // Initialize a new caller account.
    let (caller_private_key, caller) = account(1);

    // Declare the input value.
    let record_a = value(&format!("{{ owner: {caller}.private, gates: 1234u64.private }}"));
    let record_b = value(&format!("{{ owner: {caller}.private, gates: 4321u64.private }}"));

    // Construct the process.
    let mut process = CurrentProcess::new().unwrap();
    // Add the program to the process.
    process.add_program(program).unwrap();

    // Authorize the function call.
    let authorization = authorize(
        &process,
        &records,
        &caller_private_key,
        &program_id,
        "initialize",
        &vec![record_a.clone(), record_b.clone()],
    )
    .unwrap();
    assert_eq!(authorization.requests.len(), 1);
    let request = authorization.requests[0].clone();

    // Compute the output value.
    let response = evaluate(&process, &records, &request).unwrap();
    let candidate = response.outputs;
    assert_eq!(2, candidate.len());
    assert_eq!(record_a, candidate[0]);
    assert_eq!(record_b, candidate[1]);

    // Execute the request.
    let (response, execution) = execute(&mut process, &records, authorization).unwrap();
    let candidate = response.outputs;
    assert_eq!(2, candidate.len());
    assert_eq!(record_a, candidate[0]);
    assert_eq!(record_b, candidate[1]);

    assert!(verify(&process, execution).is_ok());
}

#[test]
fn test_process_execute_call_closure() {
    // Initialize a new program.
    let text = r"
program token.aleo;

record token:
    owner as address.private;
    gates as u64.private;
    token_amount as u64.private;

// (a + (a + b)) + (a + b) == (3a + 2b)
closure execute:
    input r0 as field;
    input r1 as field;
    add r0 r1 into r2;
    add r0 r2 into r3;
    add r2 r3 into r4;
    output r4 as field;
    output r3 as field;
    output r2 as field;

function compute:
    input r0 as field.private;
    input r1 as field.public;
    input r2 as token.record;
    call execute r0 r1 into r3 r4 r5;
    output r2 as token.record;
    output r3 as field.private;
    output r4 as field.private;
    output r5 as field.private;";
    let (program, records) = parse_program(text);
    let program_id = program.id.clone();

    // Initialize a new caller account.
    let (caller_private_key, caller) = account(1);

    // Prepare a record belonging to the address.
    let record_string = format!(
        "{{ owner: {caller}.private, gates: 5u64.private, token_amount: 100u64.private }}"
    );

    // Declare the input value.
    let r0 = value("3field");
    let r1 = value("5field");
    let r2 = value(&record_string);

    // Declare the expected output value.
    let r3 = value("19field");
    let r4 = value("11field");
    let r5 = value("8field");

    // Construct the process.
    let mut process = CurrentProcess::new().unwrap();
    // Add the program to the process.
    process.add_program(program).unwrap();
    // Check that the circuit key can be synthesized.
    synthesize(&mut process, "token.aleo", "compute").unwrap();

    // Reset the process.
    let mut process = CurrentProcess::new().unwrap();
    // Add the program to the process.
    process.add_program(parse_program(text).0).unwrap();

    // Authorize the function call.
    let authorization = authorize(
        &process,
        &records,
        &caller_private_key,
        &program_id,
        "compute",
        &vec![r0, r1, r2.clone()],
    )
    .unwrap();
    assert_eq!(authorization.requests.len(), 1);
    let request = authorization.requests[0].clone();

    // Compute the output value.
    let response = evaluate(&process, &records, &request).unwrap();
    let candidate = response.outputs;
    assert_eq!(4, candidate.len());
    assert_eq!(r2, candidate[0]);
    assert_eq!(r3, candidate[1]);
    assert_eq!(r4, candidate[2]);
    assert_eq!(r5, candidate[3]);

    // Execute the request.
    let (response, execution) = execute(&mut process, &records, authorization).unwrap();
    let candidate = response.outputs;
    assert_eq!(4, candidate.len());
    assert_eq!(r2, candidate[0]);
    assert_eq!(r3, candidate[1]);
    assert_eq!(r4, candidate[2]);
    assert_eq!(r5, candidate[3]);

    assert!(verify(&process, execution).is_ok());
}

#[test]
fn test_process_execute_call_internal_function() {
    // Initialize a new program.
    let (program, records) = parse_program(
        r"
program token.aleo;

record token:
    owner as address.private;
    gates as u64.private;
    amount as u64.private;

function mint:
    input r0 as address.private;
    input r1 as u64.private;
    cast r0 0u64 r1 into r2 as token.record;
    output r2 as token.record;

function transfer:
    input r0 as token.record;
    input r1 as address.private;
    input r2 as u64.private;
    sub r0.amount r2 into r3;
    call mint r1 r2 into r4; // Only for testing, this is bad practice.
    cast r0.owner r0.gates r3 into r5 as token.record;
    output r4 as token.record;
    output r5 as token.record;",
    );
    let program_id = program.id.clone();

    // Initialize callers 0 and 1.
    let (caller0_private_key, caller0) = account(0);
    let (_, caller1) = account(1);

    // Declare the input value.
    let r0 = value(&format!(
        "{{ owner: {caller0}.private, gates: 5u64.private, amount: 100u64.private }}"
    ));
    let r1 = value(&caller1.to_string());
    let r2 = value("99u64");

    // Declare the expected output value.
    let r4 = value(&format!(
        "{{ owner: {caller1}.private, gates: 0u64.private, amount: 99u64.private }}"
    ));
    let r5 = value(&format!(
        "{{ owner: {caller0}.private, gates: 5u64.private, amount: 1u64.private }}"
    ));

    // Construct the process.
    let mut process = CurrentProcess::new().unwrap();
    // Add the program to the process.
    process.add_program(program).unwrap();

    // Authorize the function call.
    let authorization = authorize(
        &process,
        &records,
        &caller0_private_key,
        &program_id,
        "transfer",
        &vec![r0, r1, r2],
    )
    .unwrap();
    assert_eq!(authorization.requests.len(), 2);
    println!("\nAuthorize\n{:#?}\n\n", authorization.requests);

    let mut auth_stack = authorization.requests.clone();

    // Compute the output value.
    let response = evaluate(&process, &records, &auth_stack.pop().unwrap()).unwrap();
    let candidate = response.outputs;
    assert_eq!(1, candidate.len());
    assert_eq!(r4, candidate[0]);

    // Compute the output value.
    let response = evaluate(&process, &records, &auth_stack.pop().unwrap()).unwrap();
    let candidate = response.outputs;
    assert_eq!(2, candidate.len());
    assert_eq!(r4, candidate[0]);
    assert_eq!(r5, candidate[1]);

    // Check again to make sure we didn't modify the authorization before calling `execute`.
    assert_eq!(authorization.requests.len(), 2);

    // Execute the request.
    let (response, execution) = execute(&mut process, &records, authorization).unwrap();
    let candidate = response.outputs;
    assert_eq!(2, candidate.len());
    assert_eq!(r4, candidate[0]);
    assert_eq!(r5, candidate[1]);

    assert!(verify(&process, execution).is_ok());
}

#[test]
fn test_process_execute_call_external_function() {
    // Initialize a new program.
    let (program0, records) = parse_program(
        r"
program token.aleo;

record token:
    owner as address.private;
    gates as u64.private;
    amount as u64.private;

function mint:
    input r0 as address.private;
    input r1 as u64.private;
    cast r0 0u64 r1 into r2 as token.record;
    output r2 as token.record;

function transfer:
    input r0 as token.record;
    input r1 as address.private;
    input r2 as u64.private;
    sub r0.amount r2 into r3;
    call mint r1 r2 into r4; // Only for testing, this is bad practice.
    call mint r0.owner r3 into r5; // Only for testing, this is bad practice.
    output r4 as token.record;
    output r5 as token.record;",
    );

    // Construct the process.
    let mut process = CurrentProcess::new().unwrap();
    // Add the program to the process.
    process.add_program(program0).unwrap();

    // Initialize another program.
    let (program1, _) = parse_program(
        r"
import token.aleo;

program wallet.aleo;

function transfer:
    input r0 as token.aleo/token.record;
    input r1 as address.private;
    input r2 as u64.private;
    call token.aleo/transfer r0 r1 r2 into r3 r4;
    output r3 as token.aleo/token.record;
    output r4 as token.aleo/token.record;",
    );
    let program1_id = program1.id.clone();

    // Add the program to the process.
    process.add_program(program1).unwrap();

    // Initialize callers 0 and 1.
    let (caller0_private_key, caller0) = account(0);
    let (_, caller1) = account(1);

    // Declare the input value.
    let r0 = value(&format!(
        "{{ owner: {caller0}.private, gates: 0u64.private, amount: 100u64.private }}"
    ));
    let r1 = value(&caller1.to_string());
    let r2 = value("99u64");

    // Declare the expected output value.
    let r4 = value(&format!(
        "{{ owner: {caller1}.private, gates: 0u64.private, amount: 99u64.private }}"
    ));
    let r5 = value(&format!(
        "{{ owner: {caller0}.private, gates: 0u64.private, amount: 1u64.private }}"
    ));

    // Authorize the function call.
    let authorization = authorize(
        &process,
        &records,
        &caller0_private_key,
        &program1_id,
        "transfer",
        &vec![r0, r1, r2],
    )
    .unwrap();
    assert_eq!(authorization.requests.len(), 4);
    println!("\nAuthorize\n{:#?}\n\n", authorization.requests);

    let mut auth_stack = authorization.requests.clone();

    // Compute the output value.
    let response = evaluate(&process, &records, &auth_stack.pop().unwrap()).unwrap();
    let candidate = response.outputs;
    assert_eq!(1, candidate.len());
    assert_eq!(r5, candidate[0]);

    // Compute the output value.
    let response = evaluate(&process, &records, &auth_stack.pop().unwrap()).unwrap();
    let candidate = response.outputs;
    assert_eq!(1, candidate.len());
    assert_eq!(r4, candidate[0]);

    // Compute the output value.
    let response = evaluate(&process, &records, &auth_stack.pop().unwrap()).unwrap();
    let candidate = response.outputs;
    assert_eq!(2, candidate.len());
    assert_eq!(r4, candidate[0]);
    assert_eq!(r5, candidate[1]);

    // Compute the output value.
    let response = evaluate(&process, &records, &auth_stack.pop().unwrap()).unwrap();
    let candidate = response.outputs;
    assert_eq!(2, candidate.len());
    assert_eq!(r4, candidate[0]);
    assert_eq!(r5, candidate[1]);

    // Check again to make sure we didn't modify the authorization before calling `execute`.
    assert_eq!(authorization.requests.len(), 4);

    // Execute the request.
    let (response, execution) = execute(&mut process, &records, authorization).unwrap();
    let candidate = response.outputs;
    assert_eq!(2, candidate.len());
    assert_eq!(r4, candidate[0]);
    assert_eq!(r5, candidate[1]);

    assert!(verify(&process, execution).is_ok());
}

const SAMPLE: &str = r"
program testing.aleo;

function compute:
    input r0 as u32.private;
    input r1 as u32.public;
    add r0 r1 into r2;
    output r2 as u32.public;";

#[test]
fn a_sample_key_can_be_made() {
    let mut process = CurrentProcess::new().unwrap();
    process.add_program(parse_program(SAMPLE).0).unwrap();
    synthesize(&mut process, "testing.aleo", "compute").unwrap();
    let (proving_key, verifying_key) = key_of(&id("testing.aleo"), &name("compute"));
    assert_eq!(
        process.get_proving_key(&id("testing.aleo"), &name("compute")),
        Ok(&proving_key)
    );
    assert_eq!(
        process.get_verifying_key(&id("testing.aleo"), &name("compute")),
        Ok(&verifying_key)
    );
}

#[test]
fn a_sample_call_has_one_transition() {
    let (program, records) = parse_program(SAMPLE);
    let program_id = program.id.clone();
    let (private_key, _) = account(1);
    let mut process = CurrentProcess::new().unwrap();
    process.add_program(program).unwrap();
    let inputs = vec![value("5u32"), value("10u32")];
    let authorization =
        authorize(&process, &records, &private_key, &program_id, "compute", &inputs).unwrap();
    assert_eq!(authorization.requests.len(), 1);
    let (response, mut execution) = execute(&mut process, &records, authorization).unwrap();
    assert_eq!(response.outputs, vec![value("15u32")]);
    assert_eq!(execution.transitions.len(), 1);
    // A proof of other inputs does not hold.
    execution.transitions[0].inputs[0].id = field(hash(&["6u32"]));
    execution.transitions[0].inputs[0].content = Some("6u32".to_string());
    assert_eq!(verify(&process, execution), Err(Error::InvalidTransition));
}

/// Executes `main` of a program that calls `once`, which calls `leaf`, and `leaf`, in the order
/// given, and verifies what came of it.
fn execute_main(first: &str, second: &str) -> Result<(), Error> {
    let text = format!(
        "
program nested.aleo;

function leaf:
    input r0 as u32.public;
    add r0 1u32 into r1;
    output r1 as u32.public;

function once:
    input r0 as u32.public;
    call leaf r0 into r1;
    output r1 as u32.public;

function main:
    input r0 as u32.public;
    call {first} r0 into r1;
    call {second} r1 into r2;
    output r2 as u32.public;"
    );
    let (program, records) = parse_program(&text);
    let program_id = program.id.clone();
    let (private_key, _) = account(1);
    let mut process = CurrentProcess::new().unwrap();
    process.add_program(program).unwrap();
    assert_eq!(process.get_number_of_calls(&program_id, &name("main")), Ok(4));
    let inputs = vec![value("5u32")];
    let authorization =
        authorize(&process, &records, &private_key, &program_id, "main", &inputs).unwrap();
    assert_eq!(authorization.requests.len(), 4);
    // The call itself comes first, then those that it makes.
    assert_eq!(authorization.requests[0].function_name, name("main"));
    assert_eq!(authorization.requests[1].function_name, name(first));
    let (response, execution) = execute(&mut process, &records, authorization).unwrap();
    assert_eq!(response.outputs, vec![value("7u32")]);
    // There is one transition for each request, and that of the call itself comes last.
    assert_eq!(execution.transitions.len(), 4);
    assert_eq!(execution.transitions[3].program_id, program_id);
    assert_eq!(execution.transitions[3].function_name, name("main"));
    verify(&process, execution)
}

#[test]
fn a_call_that_nests_in_its_first_call_is_verified() {
    assert_eq!(execute_main("once", "leaf"), Ok(()));
}

#[test]
fn the_last_transitions_are_taken_for_the_calls() {
    // The two last transitions before that of `main` are those of `once` and of the call within
    // it, and not that of the first call.
    assert_eq!(execute_main("leaf", "once"), Err(Error::InvalidTransition));
}

#[test]
fn a_request_that_is_evaluated_again_gives_the_same_outputs() {
    let (program, records) = parse_program(SAMPLE);
    let program_id = program.id.clone();
    let (private_key, _) = account(1);
    let mut process = CurrentProcess::new().unwrap();
    process.add_program(program).unwrap();
    let inputs = vec![value("5u32"), value("10u32")];
    let authorization =
        authorize(&process, &records, &private_key, &program_id, "compute", &inputs).unwrap();
    for _ in 0..3 {
        for request in &authorization.requests {
            let response = evaluate(&process, &records, request).unwrap();
            assert_eq!(response.outputs, vec![value("15u32")]);
        }
        assert_eq!(authorization.requests.len(), 1);
    }
}
