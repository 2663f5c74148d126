//! What `arduino-cli` is asked and what it answers: the arguments of its
//! commands, the boards and ports it reports, and the lines it prints.
use vstd::prelude::*;
use vstd::utf8::{decode_utf8, valid_utf8};

use crate::app::state::AppEvent;
use crate::lists::{lemma_seek, push_item, seek, texts_of};
use crate::text;

verus! {

// -- types --

#[derive(Debug)]
pub struct Board {
    pub name: String,
    pub fqbn: String,
    pub core: String,
}

pub struct BoardView {
    pub name: Seq<char>,
    pub fqbn: Seq<char>,
    pub core: Seq<char>,
}

impl DeepView for Board {
    type V = BoardView;

    open spec fn deep_view(&self) -> BoardView {
        BoardView { name: self.name@, fqbn: self.fqbn@, core: self.core@ }
    }
}

impl Clone for Board {
    fn clone(&self) -> (r: Board)
        ensures
            r.deep_view() == self.deep_view(),
    {
        Board { name: self.name.clone(), fqbn: self.fqbn.clone(), core: self.core.clone() }
    }
}

#[derive(Debug)]
pub struct Port {
    pub address: String,
    pub protocol: String,
    pub protocol_label: String,
}

pub struct PortView {
    pub address: Seq<char>,
    pub protocol: Seq<char>,
    pub protocol_label: Seq<char>,
}

impl DeepView for Port {
    type V = PortView;

    open spec fn deep_view(&self) -> PortView {
        PortView {
            address: self.address@,
            protocol: self.protocol@,
            protocol_label: self.protocol_label@,
        }
    }
}

impl Clone for Port {
    fn clone(&self) -> (r: Port)
        ensures
            r.deep_view() == self.deep_view(),
    {
        Port {
            address: self.address.clone(),
            protocol: self.protocol.clone(),
            protocol_label: self.protocol_label.clone(),
        }
    }
}

/// A port of which only the address is known.
pub open spec fn bare_port(address: Seq<char>) -> PortView {
    PortView { address, protocol: Seq::empty(), protocol_label: Seq::empty() }
}

impl Port {
    pub fn at(address: String) -> (r: Port)
        ensures
            r.deep_view() == bare_port(address@),
    {
        Port { address, protocol: String::new(), protocol_label: String::new() }
    }
}

impl Default for Port {
    fn default() -> (r: Port)
        ensures
            r.deep_view() == bare_port(Seq::empty()),
    {
        Port::at(String::new())
    }
}

#[derive(Debug)]
pub struct Detected {
    pub port: Port,
    pub matching_boards: Vec<Board>,
}

pub struct DetectedView {
    pub port: PortView,
    pub matching_boards: Seq<BoardView>,
}

impl DeepView for Detected {
    type V = DetectedView;

    open spec fn deep_view(&self) -> DetectedView {
        DetectedView {
            port: self.port.deep_view(),
            matching_boards: self.matching_boards.deep_view(),
        }
    }
}

impl Clone for Detected {
    fn clone(&self) -> (r: Detected)
        ensures
            r.deep_view() == self.deep_view(),
    {
        Detected { port: self.port.clone(), matching_boards: boards_of(&self.matching_boards) }
    }
}

pub fn boards_of(v: &Vec<Board>) -> (r: Vec<Board>)
    ensures
        r.deep_view() == v.deep_view(),
{
    let mut out: Vec<Board> = Vec::new();
    for i in 0..v.len()
        invariant
            out.deep_view() == v.deep_view().take(i as int),
    {
        push_item(&mut out, v[i].clone());
        assert(out.deep_view() =~= v.deep_view().take(i + 1));
    }
    assert(out.deep_view() =~= v.deep_view());
    out
}

/// What a sketch folder says of its board: `fqbn` is empty where it says nothing.
#[derive(Debug)]
pub struct Attached {
    pub fqbn: String,
    pub port: Option<Port>,
}

pub struct AttachedView {
    pub fqbn: Seq<char>,
    pub port: Option<PortView>,
}

impl DeepView for Attached {
    type V = AttachedView;

    open spec fn deep_view(&self) -> AttachedView {
        AttachedView { fqbn: self.fqbn@, port: self.port.deep_view() }
    }
}

// -- commands --

/// The program that does the work.
pub const BIN: &'static str = "arduino-cli";

/// The lowest major version that will do.
pub const MIN_MAJOR: u64 = 1;

fn add_word(args: &mut Vec<String>, word: &str)
    ensures
        final(args).deep_view() == old(args).deep_view().push(word@),
{
    push_item(args, word.to_owned());
}

/// The arguments with one for an answer in JSON.
pub open spec fn asking_json(args: Seq<Seq<char>>) -> Seq<Seq<char>> {
    args.push("--json"@)
}

pub fn json_args(args: &Vec<String>) -> (r: Vec<String>)
    ensures
        r.deep_view() == asking_json(args.deep_view()),
{
    let mut out = texts_of(args);
    add_word(&mut out, "--json");
    out
}

/// The arguments with one for output without colours.
pub open spec fn plain(args: Seq<Seq<char>>) -> Seq<Seq<char>> {
    args.push("--no-color"@)
}

pub fn plain_args(args: &Vec<String>) -> (r: Vec<String>)
    ensures
        r.deep_view() == plain(args.deep_view()),
{
    let mut out = texts_of(args);
    add_word(&mut out, "--no-color");
    out
}

pub open spec fn list_words() -> Seq<Seq<char>> {
    seq!["board"@, "list"@]
}

/// The command that lists the ports with what is plugged into them.
pub fn board_list() -> (r: Vec<String>)
    ensures
        r.deep_view() == list_words(),
{
    let mut out: Vec<String> = Vec::new();
    add_word(&mut out, "board");
    add_word(&mut out, "list");
    assert(out.deep_view() =~= list_words());
    out
}

pub open spec fn search_words() -> Seq<Seq<char>> {
    seq!["board"@, "search"@]
}

/// The command that lists the boards there are, also those whose core is not
/// installed.
pub fn board_search() -> (r: Vec<String>)
    ensures
        r.deep_view() == search_words(),
{
    let mut out: Vec<String> = Vec::new();
    add_word(&mut out, "board");
    add_word(&mut out, "search");
    assert(out.deep_view() =~= search_words());
    out
}

/// Attaching a board and a port to a sketch, each where it is given; with neither,
/// the sketch is asked what is attached to it.
pub open spec fn attach_words(
    sketch: Seq<char>,
    fqbn: Option<Seq<char>>,
    port: Option<PortView>,
) -> Seq<Seq<char>> {
    let start = seq!["board"@, "attach"@];
    let board = match fqbn {
        Some(f) => start + seq!["-b"@, f],
        None => start,
    };
    let at = match port {
        Some(p) => if p.protocol.len() > 0 {
            board + seq!["-p"@, p.address, "-l"@, p.protocol]
        } else {
            board + seq!["-p"@, p.address]
        },
        None => board,
    };
    at.push(sketch)
}

pub fn attach_args(sketch: &str, fqbn: Option<&str>, port: Option<&Port>) -> (r: Vec<String>)
    ensures
        r.deep_view() == attach_words(
            sketch@,
            match fqbn {
                Some(f) => Some(f@),
                None => None,
            },
            match port {
                Some(p) => Some(p.deep_view()),
                None => None,
            },
        ),
{
    let mut out: Vec<String> = Vec::new();
    add_word(&mut out, "board");
    add_word(&mut out, "attach");
    let ghost start = seq!["board"@, "attach"@];
    assert(out.deep_view() =~= start);
    let ghost board = match fqbn {
        Some(f) => start + seq!["-b"@, f@],
        None => start,
    };
    if let Some(f) = fqbn {
        add_word(&mut out, "-b");
        add_word(&mut out, f);
    }
    assert(out.deep_view() =~= board);
    if let Some(p) = port {
        add_word(&mut out, "-p");
        add_word(&mut out, p.address.as_str());
        if !p.protocol.as_str().is_empty() {
            add_word(&mut out, "-l");
            add_word(&mut out, p.protocol.as_str());
            assert(out.deep_view() =~= board + seq!["-p"@, p.address@, "-l"@, p.protocol@]);
        } else {
            assert(out.deep_view() =~= board + seq!["-p"@, p.address@]);
        }
    }
    add_word(&mut out, sketch);
    out
}

/// The command that asks a sketch what is attached to it.
pub fn attached(sketch: &str) -> (r: Vec<String>)
    ensures
        r.deep_view() == seq!["board"@, "attach"@, sketch@],
{
    let r = attach_args(sketch, None, None);
    assert(r.deep_view() =~= seq!["board"@, "attach"@, sketch@]);
    r
}

pub open spec fn monitor_words(port: PortView, baud: nat) -> Seq<Seq<char>> {
    let args = seq![
        "monitor"@,
        "-p"@,
        port.address,
        "--quiet"@,
        "--config"@,
        "baudrate="@ + text::decimal(baud),
    ];
    if port.protocol.len() > 0 {
        args + seq!["-l"@, port.protocol]
    } else {
        args
    }
}

/// The command that stays connected to a port.
pub fn monitor_args(port: &Port, baud: u32) -> (r: Vec<String>)
    ensures
        r.deep_view() == monitor_words(port.deep_view(), baud as nat),
{
    let mut out: Vec<String> = Vec::new();
    add_word(&mut out, "monitor");
    add_word(&mut out, "-p");
    add_word(&mut out, port.address.as_str());
    add_word(&mut out, "--quiet");
    add_word(&mut out, "--config");
    let rate = text::cat2("baudrate=", text::number(baud as u64).as_str());
    push_item(&mut out, rate);
    if !port.protocol.as_str().is_empty() {
        add_word(&mut out, "-l");
        add_word(&mut out, port.protocol.as_str());
    }
    assert(out.deep_view() =~= monitor_words(port.deep_view(), baud as nat));
    out
}

// -- the version --

/// What came of asking for the version.
#[derive(Debug)]
pub enum VersionReply {
    /// There is no such program.
    Missing,
    /// It did not run.
    Failed(String),
    /// It ran, and its answer did not parse.
    Garbled(String),
    Version(String),
}

/// The major version is known and below what will do.
pub open spec fn too_old(version: Seq<char>) -> bool {
    text::parsed(text::before(version, '.'), u64::MAX as nat) matches Some(major) && major
        < MIN_MAJOR
}

pub open spec fn version_checked(r: VersionReply) -> Result<Seq<char>, Seq<char>> {
    match r {
        VersionReply::Missing => Err(
            "arduino-cli not found on PATH.\nInstall it: https://arduino.github.io/arduino-cli/latest/installation/"@,
        ),
        VersionReply::Failed(e) => Err("running arduino-cli version: "@ + e@),
        VersionReply::Garbled(e) => Err("parsing arduino-cli version: "@ + e@),
        VersionReply::Version(v) => if too_old(v@) {
            Err(
                "arduino-cli "@ + v@ + " is too old; fluxus needs >= "@ + text::decimal(
                    MIN_MAJOR as nat,
                ) + ".0"@,
            )
        } else {
            Ok(v@)
        },
    }
}

/// The version, where it will do.
pub fn check_version(reply: VersionReply) -> (r: Result<String, String>)
    ensures
        text::told_text(r) == version_checked(reply),
{
    match reply {
        VersionReply::Missing => Err(
            "arduino-cli not found on PATH.\nInstall it: https://arduino.github.io/arduino-cli/latest/installation/".to_owned(),
        ),
        VersionReply::Failed(e) => Err(text::cat2("running arduino-cli version: ", e.as_str())),
        VersionReply::Garbled(e) => Err(text::cat2("parsing arduino-cli version: ", e.as_str())),
        VersionReply::Version(v) => {
            let head = text::until(v.as_str(), '.');
            if let Some(major) = text::parse(head.as_str(), u64::MAX) {
                if major < MIN_MAJOR {
                    return Err(
                        text::cat5(
                            "arduino-cli ",
                            v.as_str(),
                            " is too old; fluxus needs >= ",
                            text::number(MIN_MAJOR).as_str(),
                            ".0",
                        ),
                    );
                }
            }
            Ok(v)
        },
    }
}

// -- answers --

/// How a command ended and what it printed.
#[derive(Debug)]
pub struct Output {
    pub success: bool,
    pub stdout: Vec<u8>,
    pub stderr: Vec<u8>,
}

/// A command in the words of an error.
pub open spec fn command(args: Seq<Seq<char>>) -> Seq<char> {
    "arduino-cli "@ + text::joined(args, " "@)
}

/// The error for a command that failed, with what it had to say.
pub open spec fn complaint(args: Seq<Seq<char>>, said: Seq<char>) -> Seq<char> {
    command(args) + ": "@ + text::trimmed(said)
}

pub fn complain(args: &Vec<String>, said: &str) -> (r: String)
    ensures
        r@ == complaint(args.deep_view(), said@),
{
    let shown = text::join(args, " ");
    text::cat4("arduino-cli ", shown.as_str(), ": ", text::trim(said).as_str())
}

/// What a command had to say: its errors, or else its output.
pub open spec fn words_of(stdout: Seq<u8>, stderr: Seq<u8>) -> Seq<char> {
    text::decoded(
        if stderr.len() == 0 {
            stdout
        } else {
            stderr
        },
    )
}

/// The answer is there to be read, where the command has succeeded.
pub open spec fn answered(
    args: Seq<Seq<char>>,
    success: bool,
    stdout: Seq<u8>,
    stderr: Seq<u8>,
) -> Result<(), Seq<char>> {
    if success {
        Ok(())
    } else {
        Err(complaint(args, words_of(stdout, stderr)))
    }
}

pub fn reply(args: &Vec<String>, out: &Output) -> (r: Result<(), String>)
    ensures
        text::told(r) == answered(args.deep_view(), out.success, out.stdout@, out.stderr@),
{
    if out.success {
        Ok(())
    } else {
        let said = if out.stderr.len() == 0 {
            text::decode(out.stdout.as_slice())
        } else {
            text::decode(out.stderr.as_slice())
        };
        Err(complain(args, said.as_str()))
    }
}

/// The error for an answer that does not parse.
pub open spec fn garbled(args: Seq<Seq<char>>, e: Seq<char>) -> Seq<char> {
    "parsing "@ + command(args) + ": "@ + e
}

pub fn unparsed(args: &Vec<String>, e: &str) -> (r: String)
    ensures
        r@ == garbled(args.deep_view(), e@),
{
    let shown = text::join(args, " ");
    let what = text::cat2("arduino-cli ", shown.as_str());
    text::cat4("parsing ", what.as_str(), ": ", e)
}

/// What `serde_json::from_slice` finds wrong with some bytes read as a JSON value.
pub uninterp spec fn json_fault(bytes: Seq<u8>) -> Option<Seq<char>>;

/// `serde_json::from_slice` for a `serde_json::Value`: the message of its error,
/// where the bytes are not one JSON value. Message and verdict depend on the
/// bytes alone.
#[verifier::external_body]
fn find_json_fault(bytes: &[u8]) -> (r: Option<String>)
    ensures
        r.deep_view() == json_fault(bytes@),
{
    match serde_json::from_slice::<serde_json::Value>(bytes) {
        Ok(_) => None,
        Err(e) => Some(e.to_string()),
    }
}

/// What attaching came to: the command has to succeed, and to answer with JSON.
pub open spec fn attached_or(
    args: Seq<Seq<char>>,
    success: bool,
    stdout: Seq<u8>,
    stderr: Seq<u8>,
    fault: Option<Seq<char>>,
) -> Result<(), Seq<char>> {
    match answered(args, success, stdout, stderr) {
        Err(e) => Err(e),
        Ok(_) => match fault {
            Some(e) => Err(garbled(args, e)),
            None => Ok(()),
        },
    }
}

/// The verdict on an answer whose fault as JSON is known.
pub fn judge(args: &Vec<String>, out: &Output, fault: Option<String>) -> (r: Result<(), String>)
    ensures
        text::told(r) == attached_or(
            args.deep_view(),
            out.success,
            out.stdout@,
            out.stderr@,
            fault.deep_view(),
        ),
{
    match reply(args, out) {
        Err(e) => Err(e),
        Ok(_) => match fault {
            Some(e) => Err(unparsed(args, e.as_str())),
            None => Ok(()),
        },
    }
}

/// Takes the answer to attaching.
pub fn attach(args: &Vec<String>, out: &Output) -> (r: Result<(), String>)
    ensures
        text::told(r) == attached_or(
            args.deep_view(),
            out.success,
            out.stdout@,
            out.stderr@,
            json_fault(out.stdout@),
        ),
{
    let fault = find_json_fault(out.stdout.as_slice());
    judge(args, out, fault)
}

// -- boards by search --

/// A board that the search reports, with the platform that it belongs to.
#[derive(Debug)]
pub struct Found {
    pub board: Board,
    pub platform: String,
}

pub struct FoundView {
    pub board: BoardView,
    pub platform: Seq<char>,
}

impl DeepView for Found {
    type V = FoundView;

    open spec fn deep_view(&self) -> FoundView {
        FoundView { board: self.board.deep_view(), platform: self.platform@ }
    }
}

/// What a search reports.
#[derive(Debug)]
pub struct Search {
    pub boards: Vec<Found>,
}

/// The board with its platform as the core to install.
pub open spec fn with_core(f: FoundView) -> BoardView {
    BoardView { core: f.platform, ..f.board }
}

impl Search {
    pub fn boards(self) -> (r: Vec<Board>)
        ensures
            r.deep_view() == self.boards.deep_view().map_values(|f: FoundView| with_core(f)),
    {
        let ghost want = self.boards.deep_view().map_values(|f: FoundView| with_core(f));
        let mut out: Vec<Board> = Vec::new();
        for i in 0..self.boards.len()
            invariant
                want == self.boards.deep_view().map_values(|f: FoundView| with_core(f)),
                out.deep_view() == want.take(i as int),
        {
            let f = &self.boards[i];
            assert(self.boards.deep_view()[i as int] == f.deep_view());
            push_item(
                &mut out,
                Board {
                    name: f.board.name.clone(),
                    fqbn: f.board.fqbn.clone(),
                    core: f.platform.clone(),
                },
            );
            assert(out.deep_view() =~= want.take(i + 1));
        }
        assert(out.deep_view() =~= want);
        out
    }
}

// -- lines --

/// A line ends at a line feed or at a carriage return, with which a progress bar
/// is redrawn in place.
pub open spec fn breaks(b: u8) -> bool {
    b == 10 || b == 13
}

pub open spec fn breaks_at(s: Seq<u8>) -> spec_fn(int) -> bool {
    |i: int| breaks(s[i])
}

/// The place of the first end of a line; the length where there is none.
pub open spec fn line_end(s: Seq<u8>) -> int {
    seek(0, s.len() as int, breaks_at(s))
}

/// What reading on made of the bytes at hand.
#[derive(Debug, Clone, Copy, PartialEq, Eq, Structural)]
pub enum Chunk {
    /// The line is complete, and so many bytes are used up.
    Line { used: usize, redraw: bool },
    /// All bytes are used up, and the line goes on.
    More { used: usize },
    /// Nothing more comes; what was read is the last line.
    Last,
    /// Nothing more comes, and nothing is left.
    End,
}

/// One step of reading: what is held of the line, and what came of the step.
pub open spec fn chunked(held: Seq<u8>, avail: Seq<u8>) -> (Seq<u8>, Chunk) {
    let i = line_end(avail);
    if avail.len() == 0 {
        (
            held,
            if held.len() > 0 {
                Chunk::Last
            } else {
                Chunk::End
            },
        )
    } else if i < avail.len() {
        (held + avail.take(i), Chunk::Line { used: (i + 1) as usize, redraw: avail[i] == 13 })
    } else {
        (held + avail, Chunk::More { used: avail.len() as usize })
    }
}

/// Reads on in a line with the bytes at hand; no bytes mean that nothing more
/// comes.
pub fn chunk(buf: &mut Vec<u8>, avail: &[u8]) -> (r: Chunk)
    ensures
        (final(buf)@, r) == chunked(old(buf)@, avail@),
{
    let ghost held = buf@;
    if avail.len() == 0 {
        return if buf.len() > 0 {
            Chunk::Last
        } else {
            Chunk::End
        };
    }
    let ghost p = breaks_at(avail@);
    let mut i: usize = 0;
    while i < avail.len() && avail[i] != 10 && avail[i] != 13
        invariant
            i <= avail.len(),
            p == breaks_at(avail@),
            held == old(buf)@,
            buf@ == held + avail@.take(i as int),
            line_end(avail@) == seek(i as int, avail@.len() as int, p),
        decreases avail.len() - i,
    {
        buf.push(avail[i]);
        assert(buf@ =~= held + avail@.take(i + 1));
        i = i + 1;
    }
    if i < avail.len() {
        Chunk::Line { used: i + 1, redraw: avail[i] == 13 }
    } else {
        assert(avail@.take(i as int) =~= avail@);
        Chunk::More { used: i }
    }
}

/// The text of a line.
pub open spec fn line_text(bytes: Seq<u8>) -> Seq<char> {
    text::trimmed_end(text::decoded(bytes))
}

pub fn read_line(bytes: &[u8]) -> (r: String)
    ensures
        r@ == line_text(bytes@),
        valid_utf8(bytes@) ==> r@ == text::trimmed_end(decode_utf8(bytes@)),
{
    let s = text::decode(bytes);
    text::trim_end(s.as_str())
}

/// What a line of a run is to the program: one that is redrawn is progress.
pub open spec fn run_line(line: Seq<char>, redraw: bool, ev: AppEvent) -> bool {
    if redraw {
        ev matches AppEvent::Progress(l) && l@ == line
    } else {
        ev matches AppEvent::Log(l) && l@ == line
    }
}

pub fn run_event(line: String, redraw: bool) -> (r: AppEvent)
    ensures
        run_line(line@, redraw, r),
{
    if redraw {
        AppEvent::Progress(line)
    } else {
        AppEvent::Log(line)
    }
}

/// The event for a line that a run has printed.
pub fn stream(bytes: &[u8], redraw: bool) -> (r: AppEvent)
    ensures
        run_line(line_text(bytes@), redraw, r),
{
    run_event(read_line(bytes), redraw)
}

// -- the monitor --

/// The event for what a board has sent. It need not end a line.
pub fn monitor(id: u64, bytes: &[u8]) -> (r: AppEvent)
    ensures
        r matches AppEvent::Serial(to, chunk) && to == id && chunk@ == text::decoded(bytes@),
{
    AppEvent::Serial(id, text::decode(bytes))
}

/// The event for a line that the monitor itself has printed.
pub fn monitor_line(id: u64, bytes: &[u8]) -> (r: AppEvent)
    ensures
        r matches AppEvent::Serial(to, chunk) && to == id && chunk@ == line_text(bytes@) + "\n"@,
{
    let line = read_line(bytes);
    AppEvent::Serial(id, text::cat2(line.as_str(), "\n"))
}

/// What a monitor that has ended came to.
pub open spec fn ended(success: bool, status: Seq<char>) -> Result<(), Seq<char>> {
    if success {
        Ok(())
    } else {
        Err("monitor exited ("@ + status + ")"@)
    }
}

pub fn monitor_end(success: bool, status: &str) -> (r: Result<(), String>)
    ensures
        text::told(r) == ended(success, status@),
{
    if success {
        Ok(())
    } else {
        Err(text::cat3("monitor exited (", status, ")"))
    }
}

// -- what holds of lines --

/// A line, and whether the next one takes its place.
pub struct LineView {
    pub bytes: Seq<u8>,
    pub redraw: bool,
}

/// The lines of all that is ever printed.
pub open spec fn cut(s: Seq<u8>) -> Seq<LineView>
    decreases s.len(),
    via cut_ends
{
    let i = line_end(s);
    if i < s.len() {
        seq![LineView { bytes: s.take(i), redraw: s[i] == 13 }] + cut(s.skip(i + 1))
    } else if s.len() > 0 {
        seq![LineView { bytes: s, redraw: false }]
    } else {
        Seq::empty()
    }
}

#[via_fn]
proof fn cut_ends(s: Seq<u8>) {
    lemma_seek(0, s.len() as int, breaks_at(s));
}

/// The pieces in which it comes, one after the other.
pub open spec fn strung(pieces: Seq<Seq<u8>>) -> Seq<u8>
    decreases pieces.len(),
{
    if pieces.len() == 0 {
        Seq::empty()
    } else {
        pieces[0] + strung(pieces.drop_first())
    }
}

/// The lines that reading step by step gives, with `held` read of the first one
/// and the pieces still to come.
pub open spec fn fed(held: Seq<u8>, pieces: Seq<Seq<u8>>) -> Seq<LineView>
    decreases pieces.len(), strung(pieces).len(),
    via fed_ends
{
    let avail = if pieces.len() == 0 {
        Seq::empty()
    } else {
        pieces[0]
    };
    if pieces.len() > 0 && avail.len() == 0 {
        fed(held, pieces.drop_first())
    } else {
        let (line, step) = chunked(held, avail);
        match step {
            Chunk::Line { redraw, .. } => seq![LineView { bytes: line, redraw }] + fed(
                Seq::empty(),
                pieces.update(0, avail.skip(line_end(avail) + 1)),
            ),
            Chunk::More { .. } => fed(line, pieces.drop_first()),
            Chunk::Last => seq![LineView { bytes: line, redraw: false }],
            Chunk::End => Seq::empty(),
        }
    }
}

#[via_fn]
proof fn fed_ends(held: Seq<u8>, pieces: Seq<Seq<u8>>) {
    if pieces.len() > 0 {
        let avail = pieces[0];
        lemma_seek(0, avail.len() as int, breaks_at(avail));
        let rest = pieces.update(0, avail.skip(line_end(avail) + 1));
        assert(rest.drop_first() =~= pieces.drop_first());
    }
}

proof fn lemma_line_end_is(s: Seq<u8>, i: int)
    requires
        0 <= i <= s.len(),
        forall|k: int| 0 <= k < i ==> !breaks(#[trigger] s[k]),
        i < s.len() ==> breaks(s[i]),
    ensures
        line_end(s) == i,
{
    let p = breaks_at(s);
    lemma_seek(0, s.len() as int, p);
    let j = line_end(s);
    if j < i {
        assert(p(j));
        assert(!breaks(s[j]));
    }
    if i < j {
        assert(!p(i));
    }
}

/// The lines do not depend on the pieces in which the bytes come.
pub proof fn law_lines_do_not_depend_on_the_pieces(held: Seq<u8>, pieces: Seq<Seq<u8>>)
    requires
        forall|k: int| 0 <= k < held.len() ==> !breaks(#[trigger] held[k]),
    ensures
        fed(held, pieces) == cut(held + strung(pieces)),
    decreases pieces.len(), strung(pieces).len(),
{
    let all = held + strung(pieces);
    if pieces.len() == 0 {
        assert(all =~= held);
        lemma_line_end_is(all, all.len() as int);
    } else {
        let avail = pieces[0];
        let rest = strung(pieces.drop_first());
        let p = breaks_at(avail);
        lemma_seek(0, avail.len() as int, p);
        let i = line_end(avail);
        if avail.len() == 0 {
            assert(strung(pieces) =~= rest);
            law_lines_do_not_depend_on_the_pieces(held, pieces.drop_first());
        } else if i < avail.len() {
            let after = pieces.update(0, avail.skip(i + 1));
            assert(after.drop_first() =~= pieces.drop_first());
            assert(strung(after) == avail.skip(i + 1) + rest);
            law_lines_do_not_depend_on_the_pieces(Seq::empty(), after);
            let at = held.len() + i;
            assert(all[at] == avail[i]);
            assert(p(i));
            assert forall|k: int| 0 <= k < at implies !breaks(#[trigger] all[k]) by {
                if k >= held.len() {
                    assert(all[k] == avail[k - held.len()]);
                    assert(!p(k - held.len()));
                } else {
                    assert(all[k] == held[k]);
                }
            }
            lemma_line_end_is(all, at);
            assert(all.take(at) =~= held + avail.take(i));
            assert(all.skip(at + 1) =~= Seq::<u8>::empty() + strung(after));
            assert(fed(held, pieces) =~= cut(all));
        } else {
            assert forall|k: int| 0 <= k < (held + avail).len() implies !breaks(
                #[trigger] (held + avail)[k],
            ) by {
                if k >= held.len() {
                    assert(!p(k - held.len()));
                } else {
                    assert((held + avail)[k] == held[k]);
                }
            }
            law_lines_do_not_depend_on_the_pieces(held + avail, pieces.drop_first());
            assert(all =~= (held + avail) + rest);
        }
    }
}

/// A line holds no end of a line.
pub proof fn law_lines_hold_no_breaks(s: Seq<u8>, k: int, i: int)
    requires
        0 <= k < cut(s).len(),
        0 <= i < cut(s)[k].bytes.len(),
    ensures
        !breaks(cut(s)[k].bytes[i]),
    decreases s.len(),
{
    let p = breaks_at(s);
    lemma_seek(0, s.len() as int, p);
    let e = line_end(s);
    if k == 0 {
        assert(!p(i));
    } else {
        assert(cut(s)[k] == cut(s.skip(e + 1))[k - 1]);
        law_lines_hold_no_breaks(s.skip(e + 1), k - 1, i);
    }
}

/// The first line is all that stands before the first line feed or carriage
/// return, it is redrawn where that is a carriage return, and the other lines are
/// those of what follows.
pub proof fn law_lines_are_cut_at_breaks(a: Seq<u8>, b: u8, rest: Seq<u8>)
    requires
        forall|i: int| 0 <= i < a.len() ==> #[trigger] a[i] != 10 && a[i] != 13,
        b == 10 || b == 13,
    ensures
        cut(a + seq![b] + rest) == seq![LineView { bytes: a, redraw: b == 13 }] + cut(rest),
        a.len() > 0 ==> cut(a) == seq![LineView { bytes: a, redraw: false }],
        cut(Seq::empty()) == Seq::<LineView>::empty(),
{
    let s = a + seq![b] + rest;
    let n = a.len() as int;
    assert forall|k: int| 0 <= k < n implies !breaks(#[trigger] s[k]) by {
        assert(s[k] == a[k]);
    }
    assert(s[n] == b);
    lemma_line_end_is(s, n);
    assert(s.take(n) =~= a);
    assert(s.skip(n + 1) =~= rest);
    lemma_line_end_is(a, n);
    lemma_line_end_is(Seq::<u8>::empty(), 0);
}

/// A step of reading uses the bytes up to and with the first break, or all of
/// them, and adds what stands before it to the line.
pub proof fn law_a_step_of_reading(held: Seq<u8>, avail: Seq<u8>, i: int)
    requires
        0 <= i <= avail.len(),
        forall|k: int| 0 <= k < i ==> #[trigger] avail[k] != 10 && avail[k] != 13,
        i < avail.len() ==> avail[i] == 10 || avail[i] == 13,
    ensures
        i < avail.len() ==> chunked(held, avail) == (
            held + avail.take(i),
            Chunk::Line { used: (i + 1) as usize, redraw: avail[i] == 13 },
        ),
        i == avail.len() && i > 0 ==> chunked(held, avail) == (
            held + avail,
            Chunk::More { used: i as usize },
        ),
        avail.len() == 0 && held.len() > 0 ==> chunked(held, avail) == (held, Chunk::Last),
        avail.len() == 0 && held.len() == 0 ==> chunked(held, avail) == (held, Chunk::End),
{
    lemma_line_end_is(avail, i);
}

/// A line is what it reads, without the blanks at its end.
pub proof fn law_the_text_of_a_line(bytes: Seq<u8>)
    ensures
        exists|gap: Seq<char>|
            text::decoded(bytes) == line_text(bytes) + gap && text::trimmed(gap).len() == 0,
        line_text(bytes).len() > 0 ==> !text::white(line_text(bytes).last()),
{
    let d = text::decoded(bytes);
    let t = line_text(bytes);
    text::law_trimmed_end(d);
    let gap = d.skip(t.len() as int);
    assert(d =~= t + gap);
    text::law_blank(gap);
}

// -- what holds of commands --

/// Attaching names the sketch last, and each of the board, the port and its
/// protocol behind its own flag, where there is one.
pub proof fn law_attaching_says_what_is_given(
    sketch: Seq<char>,
    fqbn: Seq<char>,
    port: PortView,
)
    ensures
        attach_words(sketch, None, None) == seq!["board"@, "attach"@, sketch],
        attach_words(sketch, Some(fqbn), None) == seq!["board"@, "attach"@, "-b"@, fqbn, sketch],
        port.protocol.len() > 0 ==> attach_words(sketch, Some(fqbn), Some(port)) == seq![
            "board"@,
            "attach"@,
            "-b"@,
            fqbn,
            "-p"@,
            port.address,
            "-l"@,
            port.protocol,
            sketch,
        ],
        port.protocol.len() == 0 ==> attach_words(sketch, Some(fqbn), Some(port)) == seq![
            "board"@,
            "attach"@,
            "-b"@,
            fqbn,
            "-p"@,
            port.address,
            sketch,
        ],
        port.protocol.len() > 0 ==> attach_words(sketch, None, Some(port)) == seq![
            "board"@,
            "attach"@,
            "-p"@,
            port.address,
            "-l"@,
            port.protocol,
            sketch,
        ],
        port.protocol.len() == 0 ==> attach_words(sketch, None, Some(port)) == seq![
            "board"@,
            "attach"@,
            "-p"@,
            port.address,
            sketch,
        ],
{
}

/// A monitor is opened at the port's address and protocol with the given rate.
pub proof fn law_a_monitor_is_told_port_and_rate(port: PortView, baud: nat)
    ensures
        port.protocol.len() > 0 ==> monitor_words(port, baud) == seq![
            "monitor"@,
            "-p"@,
            port.address,
            "--quiet"@,
            "--config"@,
            "baudrate="@ + text::decimal(baud),
            "-l"@,
            port.protocol,
        ],
        port.protocol.len() == 0 ==> monitor_words(port, baud) == seq![
            "monitor"@,
            "-p"@,
            port.address,
            "--quiet"@,
            "--config"@,
            "baudrate="@ + text::decimal(baud),
        ],
{
}

/// A command keeps its arguments and gets one more at its end; looking for ports
/// and for boards are two commands.
pub proof fn law_commands_keep_their_arguments(args: Seq<Seq<char>>)
    ensures
        asking_json(args).drop_last() == args,
        asking_json(args).last() == "--json"@,
        plain(args).drop_last() == args,
        plain(args).last() == "--no-color"@,
        list_words() == seq!["board"@, "list"@],
        search_words() == seq!["board"@, "search"@],
{
    assert(asking_json(args).drop_last() =~= args);
    assert(plain(args).drop_last() =~= args);
}

/// A version is too old exactly where the number before its first point is below
/// one. One that does not start with a number is never too old.
pub proof fn law_versions_below_one_are_too_old(v: Seq<char>, n: nat, rest: Seq<char>)
    requires
        n <= u64::MAX,
    ensures
        too_old(text::decimal(n) + seq!['.'] + rest) <==> n < 1,
        too_old(text::decimal(n)) <==> n < 1,
        v.len() > 0 && v[0] != '+' && !('0' <= v[0] <= '9') ==> !too_old(v),
{
    text::lemma_decimal(n);
    text::lemma_parse_decimal(n, u64::MAX as nat);
    let d = text::decimal(n);
    assert forall|i: int| 0 <= i < d.len() implies d[i] != '.' by {
        assert(text::is_digit(d[i]));
    }
    text::law_before(d, '.', rest);
    if v.len() > 0 && v[0] != '+' && !('0' <= v[0] <= '9') {
        let h = text::before(v, '.');
        text::lemma_first(v, '.', 0);
        text::law_numbers_are_read(h, 0, u64::MAX as nat);
        if h.len() > 0 {
            assert(h[0] == v[0]);
        }
    }
}

/// A version that will do is taken as it is; one that is too old is named, and so
/// is what went wrong where none could be had.
pub proof fn law_the_version_is_taken_or_refused(r: VersionReply)
    ensures
        r matches VersionReply::Version(v) ==> (!too_old(v@) ==> version_checked(r) == Ok::<
            Seq<char>,
            Seq<char>,
        >(v@)),
        r matches VersionReply::Version(v) ==> (too_old(v@) ==> version_checked(r) == Err::<
            Seq<char>,
            Seq<char>,
        >("arduino-cli "@ + v@ + " is too old; fluxus needs >= "@ + text::decimal(1) + ".0"@)),
        r matches VersionReply::Failed(e) ==> version_checked(r) == Err::<Seq<char>, Seq<char>>(
            "running arduino-cli version: "@ + e@,
        ),
        r matches VersionReply::Garbled(e) ==> version_checked(r) == Err::<Seq<char>, Seq<char>>(
            "parsing arduino-cli version: "@ + e@,
        ),
        r is Missing ==> version_checked(r) is Err,
{
}

// -- what holds of answers --

/// A command that failed is told of with all its words and with what it had to say:
/// its errors, or its output where it printed no errors.
pub proof fn law_failures_say_what_was_said(
    args: Seq<Seq<char>>,
    stdout: Seq<u8>,
    stderr: Seq<u8>,
)
    ensures
        answered(args, true, stdout, stderr) is Ok,
        stderr.len() > 0 ==> answered(args, false, stdout, stderr) == Err::<(), Seq<char>>(
            "arduino-cli "@ + text::joined(args, " "@) + ": "@ + text::trimmed(
                text::decoded(stderr),
            ),
        ),
        stderr.len() == 0 ==> answered(args, false, stdout, stderr) == Err::<(), Seq<char>>(
            "arduino-cli "@ + text::joined(args, " "@) + ": "@ + text::trimmed(
                text::decoded(stdout),
            ),
        ),
{
}

/// Attaching succeeds exactly where the command has succeeded and its answer has
/// no fault. A failure of the command is told of before a fault.
pub proof fn law_attaching_needs_an_answer(
    args: Seq<Seq<char>>,
    success: bool,
    stdout: Seq<u8>,
    stderr: Seq<u8>,
    fault: Option<Seq<char>>,
)
    ensures
        attached_or(args, success, stdout, stderr, fault) is Ok <==> success && fault is None,
        success && fault is Some ==> attached_or(args, success, stdout, stderr, fault) == Err::<
            (),
            Seq<char>,
        >("parsing "@ + ("arduino-cli "@ + text::joined(args, " "@)) + ": "@ + fault->0),
        !success ==> attached_or(args, success, stdout, stderr, fault) == answered(
            args,
            false,
            stdout,
            stderr,
        ),
{
}

/// A board that was found keeps its name and its kind, and its core is its
/// platform.
pub proof fn law_found_boards_have_their_core(f: FoundView)
    ensures
        with_core(f).name == f.board.name,
        with_core(f).fqbn == f.board.fqbn,
        with_core(f).core == f.platform,
{
}

/// A monitor that failed is told of with how it ended.
pub proof fn law_a_failed_monitor_is_told_of(status: Seq<char>)
    ensures
        ended(true, status) is Ok,
        ended(false, status) == Err::<(), Seq<char>>("monitor exited ("@ + status + ")"@),
{
}

/// A port of which only the address is known has that address and nothing else.
pub proof fn law_bare_ports(address: Seq<char>)
    ensures
        bare_port(address).address == address,
        bare_port(address).protocol.len() == 0,
        bare_port(address).protocol_label.len() == 0,
{
}

} // verus!
