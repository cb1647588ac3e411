use vstd::prelude::*;
use crate::image::{
    boot_image, create_binary, lemma_boot_image_is_a_sector, lemma_empty_boot_image, signature,
    zeros, CONTENT_SIZE, SECTOR_SIZE,
};
use crate::instructions::offset::{
    is_location_override, location_override, overrides_location, spec_location_override,
};
use crate::instructions::times::tail;
use crate::instructions::{
    extract_instruction, extraction, lemma_encoding_has_the_length, spec_encode, Instruction,
    InstructionView, Operation, SyntaxError,
};
use crate::labels::LabelTable;
use crate::tokenizer::chars::{characters, lemma_run_length_is, run_length};
use crate::tokenizer::{
    lemma_comment_holds_no_tokens, spec_tokenize, tokenize, views, Token, TokenView,
    TokenizationError,
};

verus! {

/// Why a program could not be assembled.
#[derive(Debug, PartialEq, Eq, Clone, Copy)]
pub enum AssemblyError {
    /// A line could not be turned into tokens.
    Tokenization(TokenizationError),
    /// The tokens of a line are no statement, or an instruction refers to a
    /// label that the program does not define.
    Syntax(SyntaxError),
}

/// The state of an assembly run between two lines.
pub struct AssemblerView {
    /// Where the next instruction will stand.
    pub location: u16,
    /// Where the current segment began.
    pub origin: u16,
    /// The labels bound so far.
    pub labels: Map<Seq<char>, u16>,
    /// The instructions read so far, in order.
    pub instructions: Seq<InstructionView>,
    /// The labels that were bound again while they were bound, in order.
    pub redefined: Seq<Seq<char>>,
}

/// What a statement does to the state of a run.
pub enum Effect {
    /// Nothing: the line held no statement.
    Nothing,
    /// A new segment begins at the location.
    Relocate(u16),
    /// The instruction is added to the program.
    Emit(InstructionView),
}

/// What the tokens of a line, without a leading label, ask for. A location
/// override moves the location; anything else must be an instruction.
pub open spec fn statement(tokens: Seq<TokenView>) -> Result<Effect, SyntaxError> {
    if tokens.len() == 0 {
        Ok(Effect::Nothing)
    } else if overrides_location(tokens) {
        match spec_location_override(tokens) {
            Ok(location) => Ok(Effect::Relocate(location)),
            Err(error) => Err(error),
        }
    } else {
        match extraction(tokens) {
            Ok(instruction) => Ok(Effect::Emit(instruction)),
            Err(error) => Err(error),
        }
    }
}

impl AssemblerView {
    /// The state before the first line: location 0, nothing bound, nothing
    /// read.
    pub open spec fn start() -> AssemblerView {
        AssemblerView {
            location: 0,
            origin: 0,
            labels: Map::empty(),
            instructions: Seq::empty(),
            redefined: Seq::empty(),
        }
    }

    /// The state after `name` is bound to the current location. A label that
    /// is bound already is bound anew and noted as redefined.
    pub open spec fn bind(self, name: Seq<char>) -> AssemblerView {
        AssemblerView {
            labels: self.labels.insert(name, self.location),
            redefined: if self.labels.contains_key(name) {
                self.redefined.push(name)
            } else {
                self.redefined
            },
            ..self
        }
    }

    /// The state after a statement has had its effect. An instruction moves
    /// the location by its length; the location wraps around at 16 bits.
    pub open spec fn apply(self, effect: Effect) -> AssemblerView {
        match effect {
            Effect::Nothing => self,
            Effect::Relocate(location) => AssemblerView { location, origin: location, ..self },
            Effect::Emit(instruction) => AssemblerView {
                location: ((self.location + instruction.length()) % 0x10000) as u16,
                instructions: self.instructions.push(instruction),
                ..self
            },
        }
    }

    /// The state after one more line. The line is turned into tokens at the
    /// current location; a label definition at its start is bound to that
    /// location and dropped; the rest is a statement. A line that fails
    /// fails the run.
    pub open spec fn after_line(self, line: Seq<char>) -> Result<AssemblerView, AssemblyError> {
        match spec_tokenize(line, self.location, self.origin) {
            Err(error) => Err(AssemblyError::Tokenization(error)),
            Ok(tokens) => {
                let labelled = tokens.len() > 0 && tokens[0] is Label;
                let rest = if labelled {
                    tokens.skip(1)
                } else {
                    tokens
                };
                match statement(rest) {
                    Err(error) => Err(AssemblyError::Syntax(error)),
                    Ok(effect) => Ok(
                        (if labelled {
                            self.bind(tokens[0]->Label_0)
                        } else {
                            self
                        }).apply(effect),
                    ),
                }
            },
        }
    }

    /// The state after a number of lines, in order.
    pub open spec fn after_lines(self, lines: Seq<Seq<char>>) -> Result<
        AssemblerView,
        AssemblyError,
    >
        decreases lines.len(),
    {
        if lines.len() == 0 {
            Ok(self)
        } else {
            match self.after_line(lines[0]) {
                Ok(next) => next.after_lines(lines.skip(1)),
                Err(error) => Err(error),
            }
        }
    }

    /// The state after the lines that can be read: all of them, or those
    /// before the first line that fails.
    pub open spec fn as_far_as(self, lines: Seq<Seq<char>>) -> AssemblerView
        decreases lines.len(),
    {
        if lines.len() == 0 {
            self
        } else {
            match self.after_line(lines[0]) {
                Ok(next) => next.as_far_as(lines.skip(1)),
                Err(_) => self,
            }
        }
    }

    /// The bytes of the program: the encodings of its instructions, in
    /// order, against the labels of the whole program. An instruction that
    /// refers to a label that the program does not define fails the run.
    pub open spec fn encoded(self) -> Result<Seq<u8>, AssemblyError> {
        encoding_of(self.instructions, self.labels)
    }
}

/// The encodings of a sequence of instructions, one after the other. The
/// first instruction that has none fails the whole.
pub open spec fn encoding_of(instructions: Seq<InstructionView>, labels: Map<Seq<char>, u16>) -> Result<
    Seq<u8>,
    AssemblyError,
>
    decreases instructions.len(),
{
    if instructions.len() == 0 {
        Ok(Seq::empty())
    } else {
        match encoding_of(instructions.drop_last(), labels) {
            Err(error) => Err(error),
            Ok(bytes) => match spec_encode(instructions.last(), labels) {
                Err(error) => Err(AssemblyError::Syntax(error)),
                Ok(more) => Ok(bytes + more),
            },
        }
    }
}

/// The characters of a line: all but the line feed.
pub open spec fn within_line() -> spec_fn(char) -> bool {
    |c: char| c != '\n'
}

/// The lines of a text, which line feeds keep apart. A text without a line
/// feed is one line, and so is the empty text.
pub open spec fn lines(text: Seq<char>) -> Seq<Seq<char>>
    decreases text.len(),
{
    let n = run_length(text, within_line()) as int;
    if n < text.len() {
        seq![text.take(n)] + lines(text.skip(n + 1))
    } else {
        seq![text]
    }
}

/// The bytes of a program text: its lines are read in order, from location
/// 0, then the instructions are encoded against all the labels of the text.
pub open spec fn spec_program(source: Seq<char>) -> Result<Seq<u8>, AssemblyError> {
    match AssemblerView::start().after_lines(lines(source)) {
        Err(error) => Err(error),
        Ok(end) => end.encoded(),
    }
}

/// The boot sector image of a program text: the image of its bytes.
pub open spec fn spec_compile(source: Seq<char>) -> Result<Seq<u8>, AssemblyError> {
    match spec_program(source) {
        Err(error) => Err(error),
        Ok(bytes) => Ok(boot_image(bytes)),
    }
}

/// What holds of the image of a program: it begins with the program, is zero
/// from there up to the signature, and ends with the signature `0x55, 0xAA`;
/// it is exactly one sector of 512 bytes where the program has at most 510
/// bytes, and two bytes longer than the program where it has more.
pub open spec fn is_image_of(image: Seq<u8>, program: Seq<u8>) -> bool {
    &&& image == boot_image(program)
    &&& program.len() <= CONTENT_SIZE ==> image.len() == SECTOR_SIZE
    &&& program.len() > CONTENT_SIZE ==> image.len() == program.len() + 2
    &&& image.subrange(0, program.len() as int) == program
    &&& forall|i: int| program.len() <= i < image.len() - 2 ==> image[i] == 0
    &&& image[image.len() - 2] == 0x55
    &&& image[image.len() - 1] == 0xAA
}

/// A program can be encoded exactly if it defines every label that one of
/// its instructions refers to. A reference to a label that is defined
/// nowhere fails the run; it is never given a location.
pub proof fn lemma_undefined_label_fails(
    instructions: Seq<InstructionView>,
    labels: Map<Seq<char>, u16>,
)
    ensures
        encoding_of(instructions, labels) is Ok <==> forall|i: int|
            0 <= i < instructions.len() ==> (#[trigger] instructions[i]).resolved(labels),
        encoding_of(instructions, labels) matches Err(error) ==> error == AssemblyError::Syntax(
            SyntaxError::UndefinedReference,
        ),
    decreases instructions.len(),
{
    if instructions.len() > 0 {
        let front = instructions.drop_last();
        lemma_undefined_label_fails(front, labels);
        if encoding_of(instructions, labels) is Ok {
            assert forall|i: int| 0 <= i < instructions.len() implies (
            #[trigger] instructions[i]).resolved(labels) by {
                if i < front.len() {
                    assert(front[i] == instructions[i]);
                }
            }
        }
    }
}

/// The number of bytes that a sequence of instructions takes.
pub open spec fn total_length(instructions: Seq<InstructionView>) -> nat
    decreases instructions.len(),
{
    if instructions.len() == 0 {
        0
    } else {
        total_length(instructions.drop_last()) + instructions.last().length()
    }
}

/// The location counter keeps step with the bytes: an instruction moves it
/// by the number of bytes of its encoding, and the bytes of a program are as
/// many as the lengths of its instructions add up to.
pub proof fn lemma_location_follows_the_bytes(
    state: AssemblerView,
    instruction: InstructionView,
    labels: Map<Seq<char>, u16>,
)
    ensures
        state.apply(Effect::Emit(instruction)).location == (state.location
            + instruction.encoding(labels).len()) % 0x10000,
        encoding_of(state.instructions, labels) matches Ok(bytes) ==> bytes.len() == total_length(
            state.instructions,
        ),
{
    lemma_encoding_has_the_length(instruction, labels);
    lemma_program_length(state.instructions, labels);
}

/// The bytes of a sequence of instructions are as many as the lengths of
/// the instructions add up to.
pub proof fn lemma_program_length(instructions: Seq<InstructionView>, labels: Map<Seq<char>, u16>)
    ensures
        encoding_of(instructions, labels) matches Ok(bytes) ==> bytes.len() == total_length(
            instructions,
        ),
    decreases instructions.len(),
{
    if instructions.len() > 0 {
        lemma_program_length(instructions.drop_last(), labels);
        lemma_encoding_has_the_length(instructions.last(), labels);
    }
}

/// A program of at most 510 bytes assembles into exactly one sector: the
/// program, zero bytes, and the signature `0x55, 0xAA` in the last two
/// places. A program without instructions is all zero up to the signature.
pub proof fn lemma_image_is_a_sector(source: Seq<char>)
    ensures
        spec_program(source) is Ok <==> spec_compile(source) is Ok,
        spec_program(source) matches Ok(program) ==> spec_compile(source) == Ok::<
            _,
            AssemblyError,
        >(boot_image(program)),
        spec_program(source) matches Ok(program) ==> (program.len() <= CONTENT_SIZE ==> {
            let image = spec_compile(source)->Ok_0;
            &&& image.len() == SECTOR_SIZE
            &&& image.subrange(0, program.len() as int) == program
            &&& forall|i: int| program.len() <= i < CONTENT_SIZE ==> image[i] == 0
            &&& image[510] == 0x55
            &&& image[511] == 0xAA
        }),
        spec_program(source) == Ok::<_, AssemblyError>(Seq::<u8>::empty()) ==> spec_compile(
            source,
        ) == Ok::<_, AssemblyError>(zeros(510) + signature()),
{
    if let Ok(program) = spec_program(source) {
        if program.len() <= CONTENT_SIZE {
            lemma_boot_image_is_a_sector(program);
        }
        if program.len() == 0 {
            lemma_empty_boot_image();
        }
    }
}

/// A line that is empty or nothing but a comment leaves the run as it is.
pub proof fn lemma_comment_line_changes_nothing(state: AssemblerView, line: Seq<char>)
    requires
        line.len() == 0 || line[0] == ';',
        forall|i: int| 0 <= i < line.len() ==> line[i] != '\n',
    ensures
        state.after_line(line) == Ok::<_, AssemblyError>(state),
{
    lemma_comment_holds_no_tokens(line, state.location, state.origin);
}

/// The empty text is a program: it assembles into 510 zero bytes and the
/// signature.
pub proof fn lemma_empty_program()
    ensures
        spec_compile(Seq::empty()) == Ok::<_, AssemblyError>(zeros(510) + signature()),
{
    let empty = Seq::<char>::empty();
    let start = AssemblerView::start();
    lemma_comment_line_changes_nothing(start, empty);
    assert(seq![empty].skip(1) =~= Seq::<Seq<char>>::empty());
    assert(start.after_lines(Seq::empty()) == Ok::<_, AssemblyError>(start));
    lemma_empty_boot_image();
}

/// The values of a sequence of instructions, in order.
pub open spec fn instruction_views(instructions: Seq<Operation>) -> Seq<InstructionView> {
    Seq::new(instructions.len(), |i: int| instructions[i]@)
}

/// The characters of a sequence of names, in order.
pub open spec fn names(strings: Seq<String>) -> Seq<Seq<char>> {
    Seq::new(strings.len(), |i: int| strings[i]@)
}

/// An assembly run: it reads the lines of a program one by one, keeps the
/// location, the labels and the instructions, and encodes the instructions
/// once all lines are read.
pub struct Assembler {
    location: u16,
    origin: u16,
    labels: LabelTable,
    instructions: Vec<Operation>,
    redefined: Vec<String>,
}

impl View for Assembler {
    type V = AssemblerView;

    closed spec fn view(&self) -> AssemblerView {
        AssemblerView {
            location: self.location,
            origin: self.origin,
            labels: self.labels@,
            instructions: instruction_views(self.instructions@),
            redefined: names(self.redefined@),
        }
    }
}

/// What a statement makes the run do.
enum Action {
    Nothing,
    Relocate(u16),
    Emit(Operation),
}

impl Action {
    spec fn effect(self) -> Effect {
        match self {
            Action::Nothing => Effect::Nothing,
            Action::Relocate(location) => Effect::Relocate(location),
            Action::Emit(instruction) => Effect::Emit(instruction@),
        }
    }
}

fn read_statement(tokens: &Vec<Token>) -> (action: Result<Action, SyntaxError>)
    ensures
        match action {
            Ok(action) => statement(views(tokens@)) == Ok::<_, SyntaxError>(action.effect())
                && (action matches Action::Emit(instruction) ==> instruction@.length()
                <= u16::MAX),
            Err(error) => statement(views(tokens@)) == Err::<Effect, _>(error),
        },
{
    if tokens.len() == 0 {
        Ok(Action::Nothing)
    } else if is_location_override(tokens) {
        match location_override(tokens) {
            Ok(location) => Ok(Action::Relocate(location)),
            Err(error) => Err(error),
        }
    } else {
        match extract_instruction(tokens) {
            Ok(instruction) => Ok(Action::Emit(instruction)),
            Err(error) => Err(error),
        }
    }
}

impl Assembler {
    /// A run that has read nothing yet.
    pub fn new() -> (assembler: Self)
        ensures
            assembler@ == AssemblerView::start(),
    {
        let assembler = Assembler {
            location: 0,
            origin: 0,
            labels: LabelTable::new(),
            instructions: Vec::new(),
            redefined: Vec::new(),
        };
        proof {
            assert(instruction_views(assembler.instructions@) =~= Seq::empty());
            assert(names(assembler.redefined@) =~= Seq::empty());
        }
        assembler
    }

    /// Where the next instruction will stand.
    pub fn location(&self) -> (location: u16)
        ensures
            location == self@.location,
    {
        self.location
    }

    /// The labels bound so far.
    pub fn labels(&self) -> (labels: &LabelTable)
        ensures
            labels@ == self@.labels,
    {
        &self.labels
    }

    /// The labels that were defined more than once, once for each further
    /// definition, in the order of the lines.
    pub fn redefined(&self) -> (redefined: &Vec<String>)
        ensures
            names(redefined@) == self@.redefined,
    {
        &self.redefined
    }

    /// Reads one line. A line that fails leaves the run as it was.
    pub fn feed_line(&mut self, line: String) -> (done: Result<(), AssemblyError>)
        ensures
            match done {
                Ok(()) => old(self)@.after_line(line@) == Ok::<_, AssemblyError>(final(self)@),
                Err(error) => old(self)@.after_line(line@) == Err::<AssemblerView, _>(error)
                    && final(self)@ == old(self)@,
            },
    {
        let tokens = match tokenize(line, self.location, self.origin) {
            Ok(tokens) => tokens,
            Err(error) => {
                return Err(AssemblyError::Tokenization(error));
            },
        };
        let label: Option<String> = if tokens.len() > 0 {
            match &tokens[0] {
                Token::Label(name) => Some(name.clone()),
                _ => None,
            }
        } else {
            None
        };
        let rest = match &label {
            Some(_) => tail(&tokens, 1),
            None => tokens,
        };
        let action = match read_statement(&rest) {
            Ok(action) => action,
            Err(error) => {
                return Err(AssemblyError::Syntax(error));
            },
        };
        match label {
            Some(name) => {
                let again = name.clone();
                let ghost before = names(self.redefined@);
                if self.labels.insert(name, self.location).is_some() {
                    self.redefined.push(again);
                    proof {
                        assert(names(self.redefined@) =~= before.push(again@));
                    }
                }
            },
            None => {},
        }
        match action {
            Action::Nothing => {},
            Action::Relocate(location) => {
                self.location = location;
                self.origin = location;
            },
            Action::Emit(instruction) => {
                let length = instruction.byte_len();
                let ghost before = instruction_views(self.instructions@);
                self.location = ((self.location as u32 + length as u32) % 0x10000) as u16;
                self.instructions.push(instruction);
                proof {
                    assert(instruction_views(self.instructions@) =~= before.push(instruction@));
                }
            },
        }
        Ok(())
    }

    /// Reads a text line by line. The first line that fails ends the
    /// reading, and the run stays as it was before that line.
    pub fn feed(&mut self, source: &str) -> (done: Result<(), AssemblyError>)
        ensures
            match done {
                Ok(()) => old(self)@.after_lines(lines(source@)) == Ok::<_, AssemblyError>(
                    final(self)@,
                ),
                Err(error) => old(self)@.after_lines(lines(source@)) == Err::<AssemblerView, _>(
                    error,
                ),
            },
            final(self)@ == old(self)@.as_far_as(lines(source@)),
    {
        let chars = characters(source);
        let mut line = String::new();
        let mut i: usize = 0;
        let ghost whole = self@.after_lines(lines(source@));
        let ghost reached = self@.as_far_as(lines(source@));
        proof {
            assert(line@ + chars@.skip(0) =~= source@);
        }
        while i < chars.len()
            invariant
                i <= chars.len(),
                chars@ == source@,
                whole == old(self)@.after_lines(lines(source@)),
                reached == old(self)@.as_far_as(lines(source@)),
                forall|j: int| 0 <= j < line@.len() ==> within_line()(#[trigger] line@[j]),
                whole == self@.after_lines(lines(line@ + chars@.skip(i as int))),
                reached == self@.as_far_as(lines(line@ + chars@.skip(i as int))),
            decreases chars.len() - i,
        {
            let c = chars[i];
            let ghost text = line@ + chars@.skip(i as int);
            let ghost rest = chars@.skip(i + 1);
            if c == '\n' {
                proof {
                    lemma_run_length_is(text, within_line(), line@.len() as int);
                    assert(text.take(line@.len() as int) =~= line@);
                    assert(text.skip(line@.len() as int + 1) =~= rest);
                    assert((seq![line@] + lines(rest)).skip(1) =~= lines(rest));
                    assert(Seq::<char>::empty() + rest =~= rest);
                }
                match self.feed_line(line) {
                    Ok(()) => {},
                    Err(error) => {
                        return Err(error);
                    },
                }
                line = String::new();
            } else {
                line.push(c);
                proof {
                    assert(line@ + rest =~= text);
                }
            }
            i = i + 1;
        }
        let ghost before = self@;
        proof {
            assert(line@ + chars@.skip(i as int) =~= line@);
            lemma_run_length_is(line@, within_line(), line@.len() as int);
            assert(seq![line@].skip(1) =~= Seq::<Seq<char>>::empty());
            if let Ok(next) = before.after_line(line@) {
                assert(next.after_lines(Seq::empty()) == Ok::<_, AssemblyError>(next));
                assert(next.as_far_as(Seq::empty()) == next);
            }
        }
        self.feed_line(line)
    }

    /// The boot sector image of the program read so far.
    pub fn image(&self) -> (image: Result<Vec<u8>, AssemblyError>)
        ensures
            match image {
                Ok(image) => self@.encoded() is Ok && is_image_of(image@, self@.encoded()->Ok_0),
                Err(error) => self@.encoded() == Err::<Seq<u8>, _>(error),
            },
    {
        match self.encode() {
            Ok(bytes) => Ok(create_binary(bytes)),
            Err(error) => Err(error),
        }
    }

    /// Encodes the instructions read so far, in order, against the labels
    /// bound so far.
    pub fn encode(&self) -> (bytes: Result<Vec<u8>, AssemblyError>)
        ensures
            match bytes {
                Ok(bytes) => self@.encoded() == Ok::<_, AssemblyError>(bytes@),
                Err(error) => self@.encoded() == Err::<Seq<u8>, _>(error),
            },
    {
        let mut bytes: Vec<u8> = Vec::new();
        let ghost all = instruction_views(self.instructions@);
        let mut i: usize = 0;
        while i < self.instructions.len()
            invariant
                i <= self.instructions.len(),
                all == instruction_views(self.instructions@),
                encoding_of(all.take(i as int), self.labels@) == Ok::<_, AssemblyError>(bytes@),
            decreases self.instructions.len() - i,
        {
            proof {
                assert(all.take(i + 1).drop_last() =~= all.take(i as int));
            }
            match self.instructions[i].compile(&self.labels) {
                Ok(mut more) => {
                    bytes.append(&mut more);
                },
                Err(error) => {
                    proof {
                        lemma_encoding_fails_on(all, self.labels@, i + 1);
                    }
                    return Err(AssemblyError::Syntax(error));
                },
            }
            i = i + 1;
        }
        proof {
            assert(all.take(self.instructions.len() as int) =~= all);
        }
        Ok(bytes)
    }
}

/// Where the first instructions of a program cannot be encoded, the program
/// cannot be, for the same reason.
pub proof fn lemma_encoding_fails_on(
    instructions: Seq<InstructionView>,
    labels: Map<Seq<char>, u16>,
    count: int,
)
    requires
        0 <= count <= instructions.len(),
        encoding_of(instructions.take(count), labels) is Err,
    ensures
        encoding_of(instructions, labels) == encoding_of(instructions.take(count), labels),
    decreases instructions.len() - count,
{
    if count < instructions.len() {
        assert(instructions.drop_last().take(count) =~= instructions.take(count));
        lemma_encoding_fails_on(instructions.drop_last(), labels, count);
    } else {
        assert(instructions.take(count) =~= instructions);
    }
}

/// Compiles a program text into its boot sector image: the lines are read
/// in order from location 0, the instructions are encoded against all the
/// labels of the text, and the bytes are padded and signed. A program of at
/// most 510 bytes gives an image of exactly 512 bytes that ends in
/// `0x55, 0xAA`.
pub fn compile(source: &str) -> (image: Result<Vec<u8>, AssemblyError>)
    ensures
        match image {
            Ok(image) => {
                &&& spec_compile(source@) == Ok::<_, AssemblyError>(image@)
                &&& spec_program(source@) is Ok
                &&& is_image_of(image@, spec_program(source@)->Ok_0)
            },
            Err(error) => spec_compile(source@) == Err::<Seq<u8>, _>(error) && spec_program(
                source@,
            ) == Err::<Seq<u8>, _>(error),
        },
{
    let mut assembler = Assembler::new();
    match assembler.feed(source) {
        Ok(()) => {},
        Err(error) => {
            return Err(error);
        },
    }
    assembler.image()
}

} // verus!
