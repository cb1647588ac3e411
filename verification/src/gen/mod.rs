use vstd::hash_map::StringHashMap;
use vstd::prelude::*;
use vstd::string::StringExecFns;
use crate::parser::expression::{Expression, ExpressionView};
use crate::parser::function::{Function, FunctionView};
use crate::parser::statement::{statement_views, Statement, StatementView};
use crate::parser::{function_views, Program};

verus! {

/// Why no assembly text could be written for a program.
#[derive(Debug, PartialEq, Eq, Clone, Copy)]
pub enum GenerationError {
    /// An expression reads a variable that no assignment has made.
    UndefinedVariable,
}

/// The character of a decimal digit.
pub open spec fn digit(value: nat) -> char {
    ('0' as u8 + value) as char
}

/// A natural number in decimal notation, without leading zeros.
pub open spec fn digits(value: nat) -> Seq<char>
    decreases value,
{
    if value < 10 {
        seq![digit(value)]
    } else {
        digits(value / 10).push(digit(value % 10))
    }
}

/// An integer in decimal notation, with a minus sign where it is negative.
pub open spec fn signed_digits(value: int) -> Seq<char> {
    if value < 0 {
        seq!['-'] + digits((-value) as nat)
    } else {
        digits(value as nat)
    }
}

/// Appends a number in decimal notation to a text.
pub fn push_decimal(text: &mut String, value: u128)
    ensures
        final(text)@ == old(text)@ + digits(value as nat),
    decreases value,
{
    if value >= 10 {
        push_decimal(text, value / 10);
    }
    text.push((('0' as u8) + (value % 10) as u8) as char);
}

/// Appends an integer in decimal notation to a text.
pub fn push_signed_decimal(text: &mut String, value: i64)
    ensures
        final(text)@ == old(text)@ + signed_digits(value as int),
{
    if value < 0 {
        text.push('-');
        push_decimal(text, (-(value as i128)) as u128);
    } else {
        push_decimal(text, value as u128);
    }
}

/// The state of a code generator: the lines written so far, the strings
/// that have a label, each with its label, in the order in which they got
/// it, the variables of the current function, each with its place on the
/// stack, and the number of the next label.
pub struct ContextView {
    pub lines: Seq<Seq<char>>,
    pub strings: Seq<(Seq<char>, Seq<char>)>,
    pub variables: Map<Seq<char>, usize>,
    pub label_counter: u64,
}

/// The index of the string `data` among the strings that have a label, or
/// their number where it has none.
pub open spec fn string_index(strings: Seq<(Seq<char>, Seq<char>)>, data: Seq<char>) -> int
    decreases strings.len(),
{
    if strings.len() == 0 {
        0
    } else if strings[0].0 == data {
        0
    } else {
        1 + string_index(strings.skip(1), data)
    }
}

/// The index of a string lies within the strings exactly if one of them is
/// that string.
pub proof fn lemma_string_index(strings: Seq<(Seq<char>, Seq<char>)>, data: Seq<char>)
    ensures
        0 <= string_index(strings, data) <= strings.len(),
        string_index(strings, data) < strings.len() ==> strings[string_index(strings, data)].0
            == data,
    decreases strings.len(),
{
    if strings.len() > 0 && strings[0].0 != data {
        lemma_string_index(strings.skip(1), data);
    }
}

impl ContextView {
    /// The state of a generator that has written nothing.
    pub open spec fn start() -> ContextView {
        ContextView {
            lines: Seq::empty(),
            strings: Seq::empty(),
            variables: Map::empty(),
            label_counter: 0,
        }
    }

    /// The state after one more line.
    pub open spec fn write(self, line: Seq<char>) -> ContextView {
        ContextView { lines: self.lines.push(line), ..self }
    }

    /// The label of the string `data`: the one that it has, or a new one,
    /// numbered by how many strings have a label.
    pub open spec fn string_label(self, data: Seq<char>) -> Seq<char> {
        let index = string_index(self.strings, data);
        if index < self.strings.len() {
            self.strings[index].1
        } else {
            "string_"@ + digits(self.strings.len())
        }
    }

    /// The state after the string `data` has been asked for.
    pub open spec fn get_string(self, data: Seq<char>) -> ContextView {
        if string_index(self.strings, data) < self.strings.len() {
            self
        } else {
            ContextView { strings: self.strings.push((data, self.string_label(data))), ..self }
        }
    }

    /// The state after a variable has been made: it gets the place that the
    /// number of the variables says.
    pub open spec fn new_variable(self, name: Seq<char>) -> ContextView {
        ContextView {
            variables: self.variables.insert(name, self.variables.len() as usize),
            ..self
        }
    }

    /// The label that is made next.
    pub open spec fn next_label(self) -> Seq<char> {
        ".label_"@ + digits(self.label_counter as nat)
    }

    /// The state after a label has been made. The number of the labels
    /// wraps around at 64 bits.
    pub open spec fn new_label(self) -> ContextView {
        ContextView {
            label_counter: if self.label_counter == u64::MAX {
                0
            } else {
                (self.label_counter + 1) as u64
            },
            ..self
        }
    }

    /// The state at the start of a function: no variables, labels counted
    /// from 0.
    pub open spec fn new_function(self) -> ContextView {
        ContextView { variables: Map::empty(), label_counter: 0, ..self }
    }

    /// The state after the lines `lines`.
    pub open spec fn write_all(self, lines: Seq<Seq<char>>) -> ContextView {
        ContextView { lines: self.lines + lines, ..self }
    }

    /// The line that defines the string at index `i`: its label, and its
    /// characters followed by a zero byte.
    pub open spec fn string_line(self, i: int) -> Seq<char> {
        self.strings[i].1 + ": db \""@ + self.strings[i].0 + "\", 0"@
    }

    /// The state after every string that has a label has been defined, in
    /// the order in which they got their labels.
    pub open spec fn write_strings(self) -> ContextView {
        self.write_all(Seq::new(self.strings.len(), |i: int| self.string_line(i)))
    }
}

/// The operand that names the stack place `offset`: the distance in bytes
/// from the base of the frame.
pub open spec fn stack_place(offset: usize) -> Seq<char> {
    digits((2 * (offset + 1)) as nat)
}

/// A state of the generator, and the reason why it could not go on, if it
/// could not.
pub struct Generated {
    pub context: ContextView,
    pub error: Option<GenerationError>,
}

/// The lines that add `bx` to `ax`.
pub open spec fn addition() -> Seq<Seq<char>> {
    seq!["add ax, bx"@]
}

/// The lines that read the byte at the address `ebx + eax`. A lookup reads
/// single bytes only.
pub open spec fn lookup() -> Seq<Seq<char>> {
    seq!["mov al, [ebx + eax]"@]
}

/// The lines that leave 1 in `ax` if `ax` and `bx` differ, and 0 if they
/// do not.
pub open spec fn not_comparison() -> Seq<Seq<char>> {
    seq!["cmp ax, bx"@, "mov ax, 0"@, "setnz al"@]
}

/// The state after the second operand of an operation has been evaluated:
/// the lines `operation` follow, unless the operand failed.
pub open spec fn combined(second: Generated, operation: Seq<Seq<char>>) -> Generated {
    if second.error is Some {
        second
    } else {
        Generated { context: second.context.write_all(operation), error: None }
    }
}

/// The state after the code that leaves the value of an expression in `ax`.
/// Of an operation on two expressions, the first is evaluated and kept in
/// `bx`, then the second is evaluated, then the two are combined. The first
/// expression that fails ends the code.
pub open spec fn expression_code(context: ContextView, expression: ExpressionView) -> Generated
    decreases expression,
{
    match expression {
        ExpressionView::NumberLiteral(number) => Generated {
            context: context.write("mov ax, "@ + signed_digits(number as int)),
            error: None,
        },
        ExpressionView::StringLiteral(data) => Generated {
            context: context.get_string(data).write("mov ax, "@ + context.string_label(data)),
            error: None,
        },
        ExpressionView::Variable(name) => if context.variables.contains_key(name) {
            Generated {
                context: context.write(
                    "mov ax, [bp - "@ + stack_place(context.variables[name]) + "]"@,
                ),
                error: None,
            }
        } else {
            Generated { context, error: Some(GenerationError::UndefinedVariable) }
        },
        ExpressionView::Addition { left, right } => {
            let first = expression_code(context, *left);
            if first.error is Some {
                first
            } else {
                combined(expression_code(first.context.write("mov bx, ax"@), *right), addition())
            }
        },
        ExpressionView::Lookup { base, index } => {
            let first = expression_code(context, *base);
            if first.error is Some {
                first
            } else {
                combined(expression_code(first.context.write("mov bx, ax"@), *index), lookup())
            }
        },
        ExpressionView::NotComparison { left, right } => {
            let first = expression_code(context, *left);
            if first.error is Some {
                first
            } else {
                combined(
                    expression_code(first.context.write("mov bx, ax"@), *right),
                    not_comparison(),
                )
            }
        },
    }
}

/// The state after the statements from index `from` on, in order. The first
/// statement that fails ends the code.
pub open spec fn block_code(context: ContextView, statements: Seq<StatementView>, from: int) -> Generated
    decreases statements, statements.len() - from,
{
    if from < 0 || from >= statements.len() {
        Generated { context, error: None }
    } else {
        let first = statement_code(context, statements[from]);
        if first.error is Some {
            first
        } else {
            block_code(first.context, statements, from + 1)
        }
    }
}

/// The state after the code of a statement. An assignment evaluates its
/// expression and stores it in the place of the variable, which is made on
/// top of the stack if it is new. A call evaluates its parameter, if it has
/// one, and calls the function. A loop tests its condition before each round
/// and leaves when the condition is 0.
pub open spec fn statement_code(context: ContextView, statement: StatementView) -> Generated
    decreases statement, 0int,
{
    match statement {
        StatementView::Assignment { identifier, value } => {
            let evaluated = expression_code(context, value);
            if evaluated.error is Some {
                evaluated
            } else if evaluated.context.variables.contains_key(identifier) {
                Generated {
                    context: evaluated.context.write(
                        "mov [bp - "@ + stack_place(evaluated.context.variables[identifier])
                            + "], ax"@,
                    ),
                    error: None,
                }
            } else {
                Generated {
                    context: evaluated.context.write("push ax"@).new_variable(identifier),
                    error: None,
                }
            }
        },
        StatementView::FunctionCall { identifier, param } => {
            let evaluated = match param {
                Some(expression) => expression_code(context, expression),
                None => Generated { context, error: None },
            };
            if evaluated.error is Some {
                evaluated
            } else {
                Generated { context: evaluated.context.write("call "@ + identifier), error: None }
            }
        },
        StatementView::While { condition, statements } => {
            let loop_label = context.next_label();
            let end_label = context.new_label().next_label();
            let begun = context.new_label().new_label().write(loop_label + ":"@);
            let tested = expression_code(begun, condition);
            if tested.error is Some {
                tested
            } else {
                let body = block_code(
                    tested.context.write("cmp ax, 0"@).write("je "@ + end_label),
                    statements,
                    0,
                );
                if body.error is Some {
                    body
                } else {
                    Generated {
                        context: body.context.write("jmp "@ + loop_label).write(end_label + ":"@),
                        error: None,
                    }
                }
            }
        },
    }
}

/// The state after the code of a function: its label, a new stack frame,
/// its argument as its first variable, its statements, and the return.
pub open spec fn function_code(context: ContextView, function: FunctionView) -> Generated {
    let framed = context.new_function().write(function.identifier + ":"@).write(
        "push bp"@,
    ).write("mov bp, sp"@);
    let entered = match function.argument {
        Some(argument) => framed.write("push ax"@).new_variable(argument),
        None => framed,
    };
    let body = block_code(entered, function.statements, 0);
    if body.error is Some {
        body
    } else {
        Generated {
            context: body.context.write("mov sp, bp"@).write("pop bp"@).write("ret"@),
            error: None,
        }
    }
}

/// The state after the functions from index `from` on, in order.
pub open spec fn functions_code(context: ContextView, functions: Seq<FunctionView>, from: int) -> Generated
    decreases functions.len() - from,
{
    if from < 0 || from >= functions.len() {
        Generated { context, error: None }
    } else {
        let first = function_code(context, functions[from]);
        if first.error is Some {
            first
        } else {
            functions_code(first.context, functions, from + 1)
        }
    }
}

/// The lines that begin every program: the mode and the origin, the set-up
/// of the stack, the calls of `main` and of the end, and the function
/// `print`, which is built in.
pub open spec fn prologue_lines() -> Seq<Seq<char>> {
    seq![
        "bits 16"@,
        "org 0x7c00"@,
        "prologue:"@,
        "mov bp, ($$ + 510)"@,
        "mov sp, ($$ + 510)"@,
        "call main"@,
        "call epilogue"@,
        "\nprint:\n    push bp\n    mov bp, sp\n\n    mov ah,0x0e\n    int 0x10\n\n    mov sp, bp\n    pop bp\n    ret\n    "@,
    ]
}

/// The state after the lines that end every program: the halt, the strings,
/// the padding and the signature of the boot sector.
pub open spec fn epilogue_code(context: ContextView) -> ContextView {
    context.write("epilogue:"@).write("cli"@).write("hlt"@).write_strings().write(
        "times 510 - ($-$$) db 0"@,
    ).write("dw 0xaa55"@)
}

/// The lines of the assembly text of a program: the prologue, the functions
/// in order, and the epilogue. The statements outside the functions are not
/// part of it.
pub open spec fn spec_generate(functions: Seq<FunctionView>) -> Result<
    Seq<Seq<char>>,
    GenerationError,
> {
    let body = functions_code(ContextView::start().write_all(prologue_lines()), functions, 0);
    match body.error {
        Some(error) => Err(error),
        None => Ok(epilogue_code(body.context).lines),
    }
}

/// The characters of a sequence of texts, in order.
pub open spec fn texts(strings: Seq<String>) -> Seq<Seq<char>> {
    Seq::new(strings.len(), |i: int| strings[i]@)
}

/// The characters of a sequence of pairs of texts, in order.
pub open spec fn pairs(strings: Seq<(String, String)>) -> Seq<(Seq<char>, Seq<char>)> {
    Seq::new(strings.len(), |i: int| (strings[i].0@, strings[i].1@))
}

/// A code generator: it collects the lines of the assembly text of a
/// program, and keeps what the lines to come depend on.
pub struct Context {
    lines: Vec<String>,
    strings: Vec<(String, String)>,
    variables: StringHashMap<usize>,
    label_counter: u64,
}

impl View for Context {
    type V = ContextView;

    closed spec fn view(&self) -> ContextView {
        ContextView {
            lines: texts(self.lines@),
            strings: pairs(self.strings@),
            variables: self.variables@,
            label_counter: self.label_counter,
        }
    }
}

/// A state and the outcome of the step that led to it.
pub open spec fn generated(context: ContextView, outcome: Result<(), GenerationError>) -> Generated {
    Generated {
        context,
        error: match outcome {
            Ok(()) => None,
            Err(error) => Some(error),
        },
    }
}

impl Context {
    /// A generator that has written nothing.
    pub fn new() -> (context: Context)
        ensures
            context@ == ContextView::start(),
    {
        let context = Context {
            lines: Vec::new(),
            strings: Vec::new(),
            variables: StringHashMap::new(),
            label_counter: 0,
        };
        proof {
            assert(texts(context.lines@) =~= Seq::empty());
            assert(pairs(context.strings@) =~= Seq::empty());
        }
        context
    }

    /// The lines written so far.
    pub fn lines(&self) -> (lines: &Vec<String>)
        ensures
            texts(lines@) == self@.lines,
    {
        &self.lines
    }

    /// The lines written, once nothing more is to be written.
    pub fn into_lines(self) -> (lines: Vec<String>)
        ensures
            texts(lines@) == self@.lines,
    {
        self.lines
    }

    /// Writes one line.
    pub fn write(&mut self, data: &str)
        ensures
            final(self)@ == old(self)@.write(data@),
    {
        let ghost before = texts(self.lines@);
        self.lines.push(data.to_owned());
        proof {
            assert(texts(self.lines@) =~= before.push(data@));
        }
    }

    /// The label of a string, which is made if the string has none yet.
    pub fn get_string(&mut self, data: &str) -> (label: String)
        ensures
            label@ == old(self)@.string_label(data@),
            final(self)@ == old(self)@.get_string(data@),
    {
        let ghost all = pairs(self.strings@);
        let wanted = data.to_owned();
        let mut i: usize = 0;
        proof {
            assert(all.skip(0) =~= all);
        }
        while i < self.strings.len()
            invariant
                i <= self.strings.len(),
                *self == *old(self),
                wanted@ == data@,
                all == pairs(self.strings@),
                string_index(all, data@) == i + string_index(all.skip(i as int), data@),
            decreases self.strings.len() - i,
        {
            proof {
                assert(all.skip(i as int).skip(1) =~= all.skip(i + 1));
            }
            if self.strings[i].0 == wanted {
                return self.strings[i].1.clone();
            }
            i = i + 1;
        }
        let mut label = "string_".to_owned();
        push_decimal(&mut label, self.strings.len() as u128);
        self.strings.push((wanted, label.clone()));
        proof {
            assert(pairs(self.strings@) =~= all.push((data@, label@)));
        }
        label
    }

    /// The place of a variable on the stack, if the variable has been made.
    pub fn get_variable_offset(&self, name: &str) -> (offset: Option<usize>)
        ensures
            offset == if self@.variables.contains_key(name@) {
                Some(self@.variables[name@])
            } else {
                None
            },
    {
        match self.variables.get(name) {
            Some(offset) => Some(*offset),
            None => None,
        }
    }

    /// Makes a variable on top of the stack.
    pub fn new_variable(&mut self, name: &str)
        ensures
            final(self)@ == old(self)@.new_variable(name@),
    {
        let length = self.variables.len();
        self.variables.insert(name.to_owned(), length);
    }

    /// Makes a label that is new in the current function.
    pub fn new_label(&mut self) -> (label: String)
        ensures
            label@ == old(self)@.next_label(),
            final(self)@ == old(self)@.new_label(),
    {
        let mut label = ".label_".to_owned();
        push_decimal(&mut label, self.label_counter as u128);
        self.label_counter = if self.label_counter == u64::MAX {
            0
        } else {
            self.label_counter + 1
        };
        label
    }

    /// Begins a function: it has no variables yet, and its labels are
    /// counted from 0.
    pub fn new_function(&mut self)
        ensures
            final(self)@ == old(self)@.new_function(),
    {
        self.variables.clear();
        self.label_counter = 0;
    }

    /// Defines every string that has a label.
    pub fn write_strings(&mut self)
        ensures
            final(self)@ == old(self)@.write_strings(),
    {
        let ghost start = self@;
        let ghost all = Seq::new(start.strings.len(), |i: int| start.string_line(i));
        let mut i: usize = 0;
        while i < self.strings.len()
            invariant
                i <= self.strings.len(),
                start == old(self)@,
                all == Seq::new(start.strings.len(), |i: int| start.string_line(i)),
                self@ == start.write_all(all.take(i as int)),
            decreases self.strings.len() - i,
        {
            let mut line = self.strings[i].1.clone();
            line.append(": db \"");
            line.append(self.strings[i].0.as_str());
            line.append("\", 0");
            proof {
                assert(start.lines + all.take(i + 1) =~= (start.lines + all.take(i as int)).push(
                    all[i as int],
                ));
            }
            self.write(line.as_str());
            i = i + 1;
        }
        proof {
            assert(all.take(self.strings.len() as int) =~= all);
        }
    }
}

fn prologue(ctx: &mut Context)
    ensures
        final(ctx)@ == old(ctx)@.write_all(prologue_lines()),
{
    ctx.write("bits 16");
    ctx.write("org 0x7c00");

    ctx.write("prologue:");

    // Setup the stack
    ctx.write("mov bp, ($$ + 510)");
    ctx.write("mov sp, ($$ + 510)");
    ctx.write("call main");
    ctx.write("call epilogue");

    // Built in functions
    ctx.write(
        "\nprint:\n    push bp\n    mov bp, sp\n\n    mov ah,0x0e\n    int 0x10\n\n    mov sp, bp\n    pop bp\n    ret\n    ",
    );
    proof {
        assert(ctx@.lines =~= old(ctx)@.lines + prologue_lines());
    }
}

fn epilogue(ctx: &mut Context)
    ensures
        final(ctx)@ == epilogue_code(old(ctx)@),
{
    ctx.write("epilogue:");
    ctx.write("cli");
    ctx.write("hlt");

    ctx.write_strings();

    ctx.write("times 510 - ($-$$) db 0");
    ctx.write("dw 0xaa55");
}

/// Writes the assembly text of a program, as its lines.
pub fn generate(program: Program) -> (lines: Result<Vec<String>, GenerationError>)
    ensures
        match lines {
            Ok(lines) => spec_generate(program@.functions) == Ok::<_, GenerationError>(
                texts(lines@),
            ),
            Err(error) => spec_generate(program@.functions) == Err::<Seq<Seq<char>>, _>(error),
        },
{
    let mut ctx = Context::new();

    prologue(&mut ctx);

    let ghost all = function_views(program.functions@);
    let ghost begun = ctx@;
    let mut i: usize = 0;
    while i < program.functions.len()
        invariant
            i <= program.functions.len(),
            all == function_views(program.functions@),
            begun == ContextView::start().write_all(prologue_lines()),
            functions_code(begun, all, 0) == functions_code(ctx@, all, i as int),
        decreases program.functions.len() - i,
    {
        match compile_function(&mut ctx, &program.functions[i]) {
            Ok(()) => {},
            Err(error) => {
                return Err(error);
            },
        }
        i = i + 1;
    }

    epilogue(&mut ctx);
    Ok(ctx.into_lines())
}

/// Writes the code of a function.
pub fn compile_function(ctx: &mut Context, function: &Function) -> (done: Result<(), GenerationError>)
    ensures
        generated(final(ctx)@, done) == function_code(old(ctx)@, function@),
{
    ctx.new_function();
    let mut label = function.identifier.clone();
    label.append(":");
    ctx.write(label.as_str());

    // Normalize stack
    ctx.write("push bp");
    ctx.write("mov bp, sp");

    if let Some(arg) = &function.argument {
        ctx.write("push ax");
        ctx.new_variable(arg.as_str());
    }
    match compile_block(ctx, &function.statements) {
        Ok(()) => {},
        Err(error) => {
            return Err(error);
        },
    }

    ctx.write("mov sp, bp");
    ctx.write("pop bp");
    ctx.write("ret");
    Ok(())
}

fn compile_operation(ctx: &mut Context, operation: &Vec<String>)
    ensures
        final(ctx)@ == old(ctx)@.write_all(texts(operation@)),
{
    let ghost start = ctx@;
    let ghost all = texts(operation@);
    let mut i: usize = 0;
    while i < operation.len()
        invariant
            i <= operation.len(),
            all == texts(operation@),
            ctx@ == start.write_all(all.take(i as int)),
        decreases operation.len() - i,
    {
        ctx.write(operation[i].as_str());
        proof {
            assert(start.lines + all.take(i + 1) =~= (start.lines + all.take(i as int)).push(
                all[i as int],
            ));
        }
        i = i + 1;
    }
    proof {
        assert(all.take(operation.len() as int) =~= all);
    }
}

/// Writes the code that leaves the value of an expression in `ax`.
pub fn compile_expression(ctx: &mut Context, expression: &Expression) -> (done: Result<
    (),
    GenerationError,
>)
    ensures
        generated(final(ctx)@, done) == expression_code(old(ctx)@, expression@),
    decreases expression,
{
    match expression {
        Expression::NumberLiteral(num) => {
            let mut line = "mov ax, ".to_owned();
            push_signed_decimal(&mut line, *num as i64);
            ctx.write(line.as_str());
            Ok(())
        },
        Expression::StringLiteral(data) => {
            let string = ctx.get_string(data.as_str());
            let mut line = "mov ax, ".to_owned();
            line.append(string.as_str());
            ctx.write(line.as_str());
            Ok(())
        },
        Expression::Variable(name) => {
            let offset = match ctx.get_variable_offset(name.as_str()) {
                Some(offset) => offset,
                None => {
                    return Err(GenerationError::UndefinedVariable);
                },
            };
            let mut line = "mov ax, [bp - ".to_owned();
            push_decimal(&mut line, 2 * (offset as u128 + 1));
            line.append("]");
            ctx.write(line.as_str());
            Ok(())
        },
        Expression::Addition { left, right } => {
            match compile_expression(ctx, left) {
                Ok(()) => {},
                Err(error) => {
                    return Err(error);
                },
            }
            ctx.write("mov bx, ax");
            match compile_expression(ctx, right) {
                Ok(()) => {},
                Err(error) => {
                    return Err(error);
                },
            }
            ctx.write("add ax, bx");
            proof {
                assert(ctx@.lines =~= expression_code(old(ctx)@, expression@).context.lines);
            }
            Ok(())
        },
        Expression::Lookup { base, index } => {
            match compile_expression(ctx, base) {
                Ok(()) => {},
                Err(error) => {
                    return Err(error);
                },
            }
            ctx.write("mov bx, ax");
            match compile_expression(ctx, index) {
                Ok(()) => {},
                Err(error) => {
                    return Err(error);
                },
            }
            // Lookups are only available for single bits
            // Scale not available with 16 bit registers
            ctx.write("mov al, [ebx + eax]");
            proof {
                assert(ctx@.lines =~= expression_code(old(ctx)@, expression@).context.lines);
            }
            Ok(())
        },
        Expression::NotComparison { left, right } => {
            match compile_expression(ctx, left) {
                Ok(()) => {},
                Err(error) => {
                    return Err(error);
                },
            }
            ctx.write("mov bx, ax");
            match compile_expression(ctx, right) {
                Ok(()) => {},
                Err(error) => {
                    return Err(error);
                },
            }
            ctx.write("cmp ax, bx");
            ctx.write("mov ax, 0");
            ctx.write("setnz al");
            proof {
                assert(ctx@.lines =~= expression_code(old(ctx)@, expression@).context.lines);
            }
            Ok(())
        },
    }
}

/// Writes the code of a sequence of statements.
pub fn compile_block(ctx: &mut Context, statements: &Vec<Statement>) -> (done: Result<
    (),
    GenerationError,
>)
    ensures
        generated(final(ctx)@, done) == block_code(old(ctx)@, statement_views(statements@), 0),
    decreases statements, 1int,
{
    let ghost all = statement_views(statements@);
    let ghost start = ctx@;
    let mut i: usize = 0;
    while i < statements.len()
        invariant
            i <= statements.len(),
            all == statement_views(statements@),
            start == old(ctx)@,
            block_code(start, all, 0) == block_code(ctx@, all, i as int),
        decreases statements.len() - i,
    {
        match compile_statement(ctx, &statements[i]) {
            Ok(()) => {},
            Err(error) => {
                return Err(error);
            },
        }
        i = i + 1;
    }
    Ok(())
}

/// Writes the code of a statement.
pub fn compile_statement(ctx: &mut Context, statement: &Statement) -> (done: Result<
    (),
    GenerationError,
>)
    ensures
        generated(final(ctx)@, done) == statement_code(old(ctx)@, statement@),
    decreases statement, 0int,
{
    match statement {
        Statement::Assignment { identifier, value } => {
            match compile_expression(ctx, value) {
                Ok(()) => {},
                Err(error) => {
                    return Err(error);
                },
            }

            match ctx.get_variable_offset(identifier.as_str()) {
                Some(offset) => {
                    let mut line = "mov [bp - ".to_owned();
                    push_decimal(&mut line, 2 * (offset as u128 + 1));
                    line.append("], ax");
                    ctx.write(line.as_str());
                },
                None => {
                    ctx.write("push ax");
                    ctx.new_variable(identifier.as_str());
                },
            }
            Ok(())
        },
        Statement::FunctionCall { identifier, param } => {
            // Only handle a max of one param for now
            if let Some(e) = param {
                match compile_expression(ctx, e) {
                    Ok(()) => {},
                    Err(error) => {
                        return Err(error);
                    },
                }
            }
            let mut line = "call ".to_owned();
            line.append(identifier.as_str());
            ctx.write(line.as_str());
            Ok(())
        },
        Statement::While { condition, statements } => {
            proof {
                crate::parser::statement::lemma_while_view(*condition, *statements);
            }
            let loop_label = ctx.new_label();
            let end_label = ctx.new_label();
            let mut line = loop_label.clone();
            line.append(":");
            ctx.write(line.as_str());

            match compile_expression(ctx, condition) {
                Ok(()) => {},
                Err(error) => {
                    return Err(error);
                },
            }
            ctx.write("cmp ax, 0");
            let mut line = "je ".to_owned();
            line.append(end_label.as_str());
            ctx.write(line.as_str());

            match compile_block(ctx, statements) {
                Ok(()) => {},
                Err(error) => {
                    return Err(error);
                },
            }

            let mut line = "jmp ".to_owned();
            line.append(loop_label.as_str());
            ctx.write(line.as_str());
            let mut line = end_label;
            line.append(":");
            ctx.write(line.as_str());
            Ok(())
        },
    }
}

} // verus!
