//! Command lines: words matched against a table of options.
//!
//! A word comes with two readings that are made outside: as a real number, by
//! the bits of the `f32` it denotes, and as a device identifier.
use vstd::prelude::*;

use crate::text;
use crate::text::{find_cut, join2, join3, join4, parse_unsigned, quote, same, IntFault};

verus! {

/// One word of a command line.
#[derive(Debug)]
pub struct Word {
    pub text: String,
    /// The bits of the `f32` that the text denotes, or why it denotes none.
    pub real: Result<u32, String>,
    /// The device that the text names, or why it names none.
    pub device: Result<u32, String>,
}

/// What a word says.
pub struct WordView {
    pub text: Seq<char>,
    pub real: Result<u32, Seq<char>>,
    pub device: Result<u32, Seq<char>>,
}

/// A reading with its message as characters.
pub open spec fn reading(r: Result<u32, String>) -> Result<u32, Seq<char>> {
    match r {
        Ok(value) => Ok(value),
        Err(message) => Err(message@),
    }
}

impl View for Word {
    type V = WordView;

    open spec fn view(&self) -> WordView {
        WordView { text: self.text@, real: reading(self.real), device: reading(self.device) }
    }
}

/// What an option takes.
#[derive(Debug)]
pub enum Kind {
    /// Asks for the usage text.
    Help,
    /// Takes no value.
    Switch,
    /// Takes any text.
    Text,
    /// Takes an unsigned integer of at most this.
    Integer(u64),
    Real,
    Device,
    /// Takes one of these words, which name what the first text says.
    Choice(&'static str, Vec<&'static str>),
    /// Takes a width and a height, joined by `x`.
    Extent,
    /// Takes a name and a number, joined by a colon.
    Case,
    /// Takes numbers, joined by commas.
    List,
}

/// What an option takes, with its words as characters.
pub enum KindView {
    Help,
    Switch,
    Text,
    Integer(u64),
    Real,
    Device,
    Choice(Seq<char>, Seq<Seq<char>>),
    Extent,
    Case,
    List,
}

/// The characters of each name.
pub open spec fn names(v: Seq<&'static str>) -> Seq<Seq<char>> {
    v.map_values(|name: &'static str| name@)
}

impl View for Kind {
    type V = KindView;

    open spec fn view(&self) -> KindView {
        match *self {
            Kind::Help => KindView::Help,
            Kind::Switch => KindView::Switch,
            Kind::Text => KindView::Text,
            Kind::Integer(max) => KindView::Integer(max),
            Kind::Real => KindView::Real,
            Kind::Device => KindView::Device,
            Kind::Choice(noun, list) => KindView::Choice(noun@, names(list@)),
            Kind::Extent => KindView::Extent,
            Kind::Case => KindView::Case,
            Kind::List => KindView::List,
        }
    }
}

/// One line of an option table.
#[derive(Debug)]
pub struct Opt {
    pub name: &'static str,
    /// Names of one option share its number.
    pub id: u32,
    pub kind: Kind,
}

/// One line of an option table, with its texts as characters.
pub struct OptView {
    pub name: Seq<char>,
    pub id: u32,
    pub kind: KindView,
}

impl View for Opt {
    type V = OptView;

    open spec fn view(&self) -> OptView {
        OptView { name: self.name@, id: self.id, kind: self.kind@ }
    }
}

/// What a table says.
pub open spec fn table_view(table: Seq<Opt>) -> Seq<OptView> {
    table.map_values(|o: Opt| o@)
}

/// What a command line says.
pub open spec fn words_view(words: Seq<Word>) -> Seq<WordView> {
    words.map_values(|w: Word| w@)
}

/// A value as an option was given it.
#[derive(Debug)]
pub enum Argument {
    Given,
    Text(String),
    Integer(u64),
    Real(u32),
    Device(u32),
    /// The place of the word among those allowed.
    Choice(usize),
    Extent(u32, u32),
    Case(String, u64),
    List(Vec<u64>),
}

/// A value, with its texts as characters.
pub enum ArgumentView {
    Given,
    Text(Seq<char>),
    Integer(u64),
    Real(u32),
    Device(u32),
    Choice(int),
    Extent(u32, u32),
    Case(Seq<char>, u64),
    List(Seq<u64>),
}

impl View for Argument {
    type V = ArgumentView;

    open spec fn view(&self) -> ArgumentView {
        match *self {
            Argument::Given => ArgumentView::Given,
            Argument::Text(text) => ArgumentView::Text(text@),
            Argument::Integer(n) => ArgumentView::Integer(n),
            Argument::Real(bits) => ArgumentView::Real(bits),
            Argument::Device(id) => ArgumentView::Device(id),
            Argument::Choice(place) => ArgumentView::Choice(place as int),
            Argument::Extent(w, h) => ArgumentView::Extent(w, h),
            Argument::Case(name, index) => ArgumentView::Case(name@, index),
            Argument::List(list) => ArgumentView::List(list@),
        }
    }
}

/// One option as it was given.
#[derive(Debug)]
pub struct Setting {
    pub id: u32,
    pub value: Argument,
}

/// One option as it was given, with its texts as characters.
pub struct SettingView {
    pub id: u32,
    pub value: ArgumentView,
}

impl View for Setting {
    type V = SettingView;

    open spec fn view(&self) -> SettingView {
        SettingView { id: self.id, value: self.value@ }
    }
}

/// What a list of settings says.
pub open spec fn settings_view(settings: Seq<Setting>) -> Seq<SettingView> {
    settings.map_values(|s: Setting| s@)
}

/// Why a command line was not taken.
#[derive(Debug)]
pub enum Fault {
    /// The usage text was asked for.
    Help,
    /// The option of this name has no word after it.
    Missing(String),
    /// No option has this name.
    Unknown(String),
    /// The value of this option is no integer that it takes.
    Integer(String, IntFault),
    /// The value of this option is no real number, for this reason.
    Real(String, String),
    /// The value names no device, for this reason.
    Device(String),
    /// What is named here has no value of this name.
    Choice(String, String),
    /// The value is not two texts joined by `x`.
    ExtentForm(String),
    ExtentWidth(IntFault),
    ExtentHeight(IntFault),
    /// The value is not two texts joined by a colon.
    CaseForm(String),
    /// The name is empty or holds other characters than a name may.
    CaseName(String),
    CaseIndex(String, IntFault),
    /// One of the numbers of a list is none.
    ListItem(String, IntFault),
}

/// A fault, with its texts as characters.
pub enum FaultView {
    Help,
    Missing(Seq<char>),
    Unknown(Seq<char>),
    Integer(Seq<char>, IntFault),
    Real(Seq<char>, Seq<char>),
    Device(Seq<char>),
    Choice(Seq<char>, Seq<char>),
    ExtentForm(Seq<char>),
    ExtentWidth(IntFault),
    ExtentHeight(IntFault),
    CaseForm(Seq<char>),
    CaseName(Seq<char>),
    CaseIndex(Seq<char>, IntFault),
    ListItem(Seq<char>, IntFault),
}

impl View for Fault {
    type V = FaultView;

    open spec fn view(&self) -> FaultView {
        match *self {
            Fault::Help => FaultView::Help,
            Fault::Missing(flag) => FaultView::Missing(flag@),
            Fault::Unknown(flag) => FaultView::Unknown(flag@),
            Fault::Integer(flag, fault) => FaultView::Integer(flag@, fault),
            Fault::Real(flag, message) => FaultView::Real(flag@, message@),
            Fault::Device(message) => FaultView::Device(message@),
            Fault::Choice(noun, text) => FaultView::Choice(noun@, text@),
            Fault::ExtentForm(text) => FaultView::ExtentForm(text@),
            Fault::ExtentWidth(fault) => FaultView::ExtentWidth(fault),
            Fault::ExtentHeight(fault) => FaultView::ExtentHeight(fault),
            Fault::CaseForm(text) => FaultView::CaseForm(text@),
            Fault::CaseName(name) => FaultView::CaseName(name@),
            Fault::CaseIndex(text, fault) => FaultView::CaseIndex(text@, fault),
            Fault::ListItem(text, fault) => FaultView::ListItem(text@, fault),
        }
    }
}

/// The first line of `table` from line `from` on that has this name.
pub open spec fn lookup(table: Seq<OptView>, name: Seq<char>, from: int) -> Option<OptView>
    decreases table.len() - from,
{
    if from < 0 || from >= table.len() {
        None
    } else if table[from].name == name {
        Some(table[from])
    } else {
        lookup(table, name, from + 1)
    }
}

/// The first place from `from` on where `text` stands in `list`.
pub open spec fn place(list: Seq<Seq<char>>, text: Seq<char>, from: int) -> Option<int>
    decreases list.len() - from,
{
    if from < 0 || from >= list.len() {
        None
    } else if list[from] == text {
        Some(from)
    } else {
        place(list, text, from + 1)
    }
}

/// Whether every character may stand in the name of a case.
pub open spec fn case_name(s: Seq<char>) -> bool {
    &&& s.len() > 0
    &&& forall|i: int| 0 <= i < s.len() ==> case_char(#[trigger] s[i])
}

/// A lower-case letter, a digit or a hyphen.
pub open spec fn case_char(c: char) -> bool {
    ('a' <= c && c <= 'z') || ('0' <= c && c <= '9') || c == '-'
}

/// Reads numbers between commas, up to the first that is none.
pub open spec fn read_list(s: Seq<char>, max: u64) -> Result<Seq<u64>, FaultView>
    decreases s.len(),
{
    let end = text::cut(s, ',', ',');
    if end < 0 || end >= s.len() {
        match text::read_unsigned(s, max as int) {
            Ok(n) => Ok(seq![n as u64]),
            Err(fault) => Err(FaultView::ListItem(s, fault)),
        }
    } else {
        match text::read_unsigned(s.take(end), max as int) {
            Err(fault) => Err(FaultView::ListItem(s.take(end), fault)),
            Ok(n) => match read_list(s.skip(end + 1), max) {
                Err(fault) => Err(fault),
                Ok(rest) => Ok(seq![n as u64] + rest),
            },
        }
    }
}

/// Reads `WIDTHxHEIGHT`.
pub open spec fn read_extent(s: Seq<char>) -> Result<ArgumentView, FaultView> {
    let end = text::cut(s, 'x', 'X');
    if end >= s.len() {
        Err(FaultView::ExtentForm(s))
    } else {
        match text::read_unsigned(s.take(end), u32::MAX as int) {
            Err(fault) => Err(FaultView::ExtentWidth(fault)),
            Ok(w) => match text::read_unsigned(s.skip(end + 1), u32::MAX as int) {
                Err(fault) => Err(FaultView::ExtentHeight(fault)),
                Ok(h) => Ok(ArgumentView::Extent(w as u32, h as u32)),
            },
        }
    }
}

/// Reads `NAME:INDEX`.
pub open spec fn read_case(s: Seq<char>) -> Result<ArgumentView, FaultView> {
    let end = text::cut(s, ':', ':');
    if end >= s.len() {
        Err(FaultView::CaseForm(s))
    } else if !case_name(s.take(end)) {
        Err(FaultView::CaseName(s.take(end)))
    } else {
        match text::read_unsigned(s.skip(end + 1), usize::MAX as int) {
            Err(fault) => Err(FaultView::CaseIndex(s.skip(end + 1), fault)),
            Ok(index) => Ok(ArgumentView::Case(s.take(end), index as u64)),
        }
    }
}

/// What the option `flag`, which takes `kind`, gets from the word `w`.
pub open spec fn read_value(kind: KindView, flag: Seq<char>, w: WordView) -> Result<
    ArgumentView,
    FaultView,
> {
    match kind {
        KindView::Help => Ok(ArgumentView::Given),
        KindView::Switch => Ok(ArgumentView::Given),
        KindView::Text => Ok(ArgumentView::Text(w.text)),
        KindView::Integer(max) => match text::read_unsigned(w.text, max as int) {
            Ok(n) => Ok(ArgumentView::Integer(n as u64)),
            Err(fault) => Err(FaultView::Integer(flag, fault)),
        },
        KindView::Real => match w.real {
            Ok(bits) => Ok(ArgumentView::Real(bits)),
            Err(message) => Err(FaultView::Real(flag, message)),
        },
        KindView::Device => match w.device {
            Ok(id) => Ok(ArgumentView::Device(id)),
            Err(message) => Err(FaultView::Device(message)),
        },
        KindView::Choice(noun, list) => match place(list, w.text, 0) {
            Some(at) => Ok(ArgumentView::Choice(at)),
            None => Err(FaultView::Choice(noun, w.text)),
        },
        KindView::Extent => read_extent(w.text),
        KindView::Case => read_case(w.text),
        KindView::List => match read_list(w.text, usize::MAX as u64) {
            Ok(list) => Ok(ArgumentView::List(list)),
            Err(fault) => Err(fault),
        },
    }
}

/// Reads the command line from word `i` on, after the settings `done`.
///
/// Words are taken from the left: an option, and the word after it where the
/// option takes a value. The first word that does not fit ends the reading.
/// Where `greedy` holds, a name in no line of the table is thought to take a
/// value too, so that a lone one lacks its value before it is unknown.
pub open spec fn scanned(
    words: Seq<WordView>,
    table: Seq<OptView>,
    greedy: bool,
    i: int,
    done: Seq<SettingView>,
) -> Result<Seq<SettingView>, FaultView>
    decreases words.len() - i,
{
    if i < 0 || i >= words.len() {
        Ok(done)
    } else {
        match lookup(table, words[i].text, 0) {
            None => if greedy && i + 1 >= words.len() {
                Err(FaultView::Missing(words[i].text))
            } else {
                Err(FaultView::Unknown(words[i].text))
            },
            Some(opt) => if opt.kind is Help {
                Err(FaultView::Help)
            } else if opt.kind is Switch {
                scanned(
                    words,
                    table,
                    greedy,
                    i + 1,
                    done.push(SettingView { id: opt.id, value: ArgumentView::Given }),
                )
            } else if i + 1 >= words.len() {
                Err(FaultView::Missing(words[i].text))
            } else {
                match read_value(opt.kind, words[i].text, words[i + 1]) {
                    Err(fault) => Err(fault),
                    Ok(value) => scanned(
                        words,
                        table,
                        greedy,
                        i + 2,
                        done.push(SettingView { id: opt.id, value }),
                    ),
                }
            },
        }
    }
}

/// The last value that option `id` was given.
pub open spec fn latest(settings: Seq<SettingView>, id: u32) -> Option<ArgumentView>
    decreases settings.len(),
{
    if settings.len() == 0 {
        None
    } else if settings.last().id == id {
        Some(settings.last().value)
    } else {
        latest(settings.drop_last(), id)
    }
}

/// Whether option `id` was given.
pub open spec fn given(settings: Seq<SettingView>, id: u32) -> bool {
    latest(settings, id) is Some
}

/// The last integer that option `id` was given, or `default`.
pub open spec fn integer_or(settings: Seq<SettingView>, id: u32, default: u64) -> u64 {
    match latest(settings, id) {
        Some(ArgumentView::Integer(n)) => n,
        _ => default,
    }
}

/// The last real number that option `id` was given, or `default`, in bits.
pub open spec fn real_or(settings: Seq<SettingView>, id: u32, default: u32) -> u32 {
    match latest(settings, id) {
        Some(ArgumentView::Real(bits)) => bits,
        _ => default,
    }
}

/// The last choice that option `id` was given, or `default`.
pub open spec fn choice_or(settings: Seq<SettingView>, id: u32, default: int) -> int {
    match latest(settings, id) {
        Some(ArgumentView::Choice(at)) => at,
        _ => default,
    }
}

/// The last text that option `id` was given.
pub open spec fn text_given(settings: Seq<SettingView>, id: u32) -> Option<Seq<char>> {
    match latest(settings, id) {
        Some(ArgumentView::Text(text)) => Some(text),
        _ => None,
    }
}

/// The last text that option `id` was given, or `default`.
pub open spec fn text_or(settings: Seq<SettingView>, id: u32, default: Seq<char>) -> Seq<char> {
    match text_given(settings, id) {
        Some(text) => text,
        None => default,
    }
}

/// The last real number that option `id` was given, in bits.
pub open spec fn real_given(settings: Seq<SettingView>, id: u32) -> Option<u32> {
    match latest(settings, id) {
        Some(ArgumentView::Real(bits)) => Some(bits),
        _ => None,
    }
}

/// The last integer that option `id` was given.
pub open spec fn integer_given(settings: Seq<SettingView>, id: u32) -> Option<u64> {
    match latest(settings, id) {
        Some(ArgumentView::Integer(n)) => Some(n),
        _ => None,
    }
}

/// The last device that option `id` was given.
pub open spec fn device_given(settings: Seq<SettingView>, id: u32) -> Option<u32> {
    match latest(settings, id) {
        Some(ArgumentView::Device(n)) => Some(n),
        _ => None,
    }
}

/// The result of reading one value.
pub open spec fn value_result(r: Result<Argument, Fault>) -> Result<ArgumentView, FaultView> {
    match r {
        Ok(value) => Ok(value@),
        Err(fault) => Err(fault@),
    }
}

/// The result of reading a command line.
pub open spec fn scan_result(r: Result<Vec<Setting>, Fault>) -> Result<
    Seq<SettingView>,
    FaultView,
> {
    match r {
        Ok(settings) => Ok(settings_view(settings@)),
        Err(fault) => Err(fault@),
    }
}

/// Finds the line of an option.
fn find<'a>(table: &'a Vec<Opt>, name: &str) -> (result: Option<&'a Opt>)
    ensures
        match result {
            Some(opt) => lookup(table_view(table@), name@, 0) == Some(opt@),
            None => lookup(table_view(table@), name@, 0) is None,
        },
{
    let mut i: usize = 0;
    while i < table.len()
        invariant
            i <= table.len(),
            lookup(table_view(table@), name@, 0) == lookup(table_view(table@), name@, i as int),
        decreases table.len() - i,
    {
        if same(table[i].name, name) {
            return Some(&table[i]);
        }
        i = i + 1;
    }
    None
}

/// Finds a word among those allowed.
fn find_place(list: &Vec<&'static str>, text: &str) -> (result: Option<usize>)
    ensures
        match result {
            Some(at) => place(names(list@), text@, 0) == Some(at as int) && at < list.len(),
            None => place(names(list@), text@, 0) is None,
        },
{
    let mut i: usize = 0;
    while i < list.len()
        invariant
            i <= list.len(),
            place(names(list@), text@, 0) == place(names(list@), text@, i as int),
        decreases list.len() - i,
    {
        if same(list[i], text) {
            return Some(i);
        }
        i = i + 1;
    }
    None
}

/// Whether a case may have this name.
fn is_case_name(s: &str) -> (result: bool)
    ensures
        result == case_name(s@),
{
    let len: usize = s.unicode_len();
    let mut i: usize = 0;
    while i < len
        invariant
            i <= len,
            len == s@.len(),
            forall|j: int| 0 <= j < i ==> case_char(#[trigger] s@[j]),
        decreases len - i,
    {
        let c: char = s.get_char(i);
        if !(('a' <= c && c <= 'z') || ('0' <= c && c <= '9') || c == '-') {
            return false;
        }
        i = i + 1;
    }
    len > 0
}

/// Reads numbers between commas.
fn parse_list(s: &str) -> (result: Result<Vec<u64>, Fault>)
    ensures
        match result {
            Ok(list) => read_list(s@, usize::MAX as u64) == Ok::<Seq<u64>, FaultView>(list@),
            Err(fault) => read_list(s@, usize::MAX as u64) == Err::<Seq<u64>, FaultView>(fault@),
        },
    decreases s@.len(),
{
    let len: usize = s.unicode_len();
    let end: usize = find_cut(s, ',', ',');
    if end >= len {
        return match parse_unsigned(s, usize::MAX as u64) {
            Ok(n) => {
                let mut list: Vec<u64> = Vec::new();
                list.push(n);
                assert(list@ =~= seq![n]);
                Ok(list)
            },
            Err(fault) => Err(Fault::ListItem(s.to_owned(), fault)),
        };
    }
    let head = s.substring_char(0, end);
    assert(head@ =~= s@.take(end as int));
    match parse_unsigned(head, usize::MAX as u64) {
        Err(fault) => Err(Fault::ListItem(head.to_owned(), fault)),
        Ok(n) => {
            let tail = s.substring_char(end + 1, len);
            assert(tail@ =~= s@.skip(end + 1));
            match parse_list(tail) {
                Err(fault) => Err(fault),
                Ok(mut rest) => {
                    let ghost old_rest = rest@;
                    rest.insert(0, n);
                    assert(rest@ =~= seq![n] + old_rest);
                    Ok(rest)
                },
            }
        },
    }
}

/// Reads `WIDTHxHEIGHT`.
fn parse_extent(s: &str) -> (result: Result<Argument, Fault>)
    ensures
        value_result(result) == read_extent(s@),
{
    let len: usize = s.unicode_len();
    let end: usize = find_cut(s, 'x', 'X');
    if end >= len {
        return Err(Fault::ExtentForm(s.to_owned()));
    }
    let head = s.substring_char(0, end);
    let tail = s.substring_char(end + 1, len);
    assert(head@ =~= s@.take(end as int));
    assert(tail@ =~= s@.skip(end + 1));
    match parse_unsigned(head, u32::MAX as u64) {
        Err(fault) => Err(Fault::ExtentWidth(fault)),
        Ok(w) => match parse_unsigned(tail, u32::MAX as u64) {
            Err(fault) => Err(Fault::ExtentHeight(fault)),
            Ok(h) => {
                proof {
                    text::unsigned_is_bounded(head@, u32::MAX as int);
                    text::unsigned_is_bounded(tail@, u32::MAX as int);
                }
                Ok(Argument::Extent(w as u32, h as u32))
            },
        },
    }
}

/// Reads `NAME:INDEX`.
fn parse_case(s: &str) -> (result: Result<Argument, Fault>)
    ensures
        value_result(result) == read_case(s@),
{
    let len: usize = s.unicode_len();
    let end: usize = find_cut(s, ':', ':');
    if end >= len {
        return Err(Fault::CaseForm(s.to_owned()));
    }
    let head = s.substring_char(0, end);
    let tail = s.substring_char(end + 1, len);
    assert(head@ =~= s@.take(end as int));
    assert(tail@ =~= s@.skip(end + 1));
    if !is_case_name(head) {
        return Err(Fault::CaseName(head.to_owned()));
    }
    match parse_unsigned(tail, usize::MAX as u64) {
        Err(fault) => Err(Fault::CaseIndex(tail.to_owned(), fault)),
        Ok(index) => Ok(Argument::Case(head.to_owned(), index)),
    }
}

/// Reads the value of one option.
fn parse_value(kind: &Kind, flag: &str, word: &Word) -> (result: Result<Argument, Fault>)
    ensures
        value_result(result) == read_value(kind@, flag@, word@),
{
    match kind {
        Kind::Help => Ok(Argument::Given),
        Kind::Switch => Ok(Argument::Given),
        Kind::Text => Ok(Argument::Text(word.text.clone())),
        Kind::Integer(max) => match parse_unsigned(word.text.as_str(), *max) {
            Ok(n) => Ok(Argument::Integer(n)),
            Err(fault) => Err(Fault::Integer(flag.to_owned(), fault)),
        },
        Kind::Real => match &word.real {
            Ok(bits) => Ok(Argument::Real(*bits)),
            Err(message) => Err(Fault::Real(flag.to_owned(), message.clone())),
        },
        Kind::Device => match &word.device {
            Ok(id) => Ok(Argument::Device(*id)),
            Err(message) => Err(Fault::Device(message.clone())),
        },
        Kind::Choice(noun, list) => match find_place(list, word.text.as_str()) {
            Some(at) => Ok(Argument::Choice(at)),
            None => Err(Fault::Choice((*noun).to_owned(), word.text.clone())),
        },
        Kind::Extent => parse_extent(word.text.as_str()),
        Kind::Case => parse_case(word.text.as_str()),
        Kind::List => match parse_list(word.text.as_str()) {
            Ok(list) => Ok(Argument::List(list)),
            Err(fault) => Err(fault),
        },
    }
}

/// Reads a command line against a table of options.
pub fn scan(words: &Vec<Word>, table: &Vec<Opt>, greedy: bool) -> (result: Result<
    Vec<Setting>,
    Fault,
>)
    ensures
        scan_result(result) == scanned(
            words_view(words@),
            table_view(table@),
            greedy,
            0,
            Seq::empty(),
        ),
{
    let ghost w = words_view(words@);
    let ghost t = table_view(table@);
    let mut settings: Vec<Setting> = Vec::new();
    let mut i: usize = 0;
    assert(settings_view(settings@) =~= Seq::<SettingView>::empty());
    while i < words.len()
        invariant
            i <= words.len(),
            w == words_view(words@),
            t == table_view(table@),
            scanned(w, t, greedy, 0, Seq::empty()) == scanned(
                w,
                t,
                greedy,
                i as int,
                settings_view(settings@),
            ),
        decreases words.len() - i,
    {
        let flag = words[i].text.as_str();
        match find(table, flag) {
            None => {
                if greedy && words.len() - i <= 1 {
                    return Err(Fault::Missing(flag.to_owned()));
                }
                return Err(Fault::Unknown(flag.to_owned()));
            },
            Some(opt) => {
                let ghost before = settings_view(settings@);
                match &opt.kind {
                    Kind::Help => {
                        return Err(Fault::Help);
                    },
                    Kind::Switch => {
                        settings.push(Setting { id: opt.id, value: Argument::Given });
                        i = i + 1;
                    },
                    kind => {
                        if words.len() - i <= 1 {
                            return Err(Fault::Missing(flag.to_owned()));
                        }
                        match parse_value(kind, flag, &words[i + 1]) {
                            Err(fault) => {
                                return Err(fault);
                            },
                            Ok(value) => {
                                settings.push(Setting { id: opt.id, value });
                                i = i + 2;
                            },
                        }
                    },
                }
                proof {
                    assert(settings_view(settings@) =~= before.push(settings@.last()@));
                }
            },
        }
    }
    Ok(settings)
}

/// The last value that option `id` was given.
pub fn last_value<'a>(settings: &'a Vec<Setting>, id: u32) -> (result: Option<&'a Argument>)
    ensures
        match result {
            Some(value) => latest(settings_view(settings@), id) == Some(value@),
            None => latest(settings_view(settings@), id) is None,
        },
{
    let ghost all = settings_view(settings@);
    let mut i: usize = settings.len();
    assert(all.take(all.len() as int) =~= all);
    while i > 0
        invariant
            i <= settings.len(),
            all == settings_view(settings@),
            latest(all, id) == latest(all.take(i as int), id),
        decreases i,
    {
        assert(all.take(i as int).last() == settings@[i - 1]@);
        assert(all.take(i as int).drop_last() =~= all.take(i - 1));
        if settings[i - 1].id == id {
            return Some(&settings[i - 1].value);
        }
        i = i - 1;
    }
    None
}

/// Whether option `id` was given.
pub fn is_given(settings: &Vec<Setting>, id: u32) -> (result: bool)
    ensures
        result == given(settings_view(settings@), id),
{
    last_value(settings, id).is_some()
}

/// The last integer that option `id` was given, or `default`.
pub fn last_integer(settings: &Vec<Setting>, id: u32, default: u64) -> (result: u64)
    ensures
        result == integer_or(settings_view(settings@), id, default),
{
    match last_value(settings, id) {
        Some(Argument::Integer(n)) => *n,
        _ => default,
    }
}

/// The last real number that option `id` was given, or `default`, in bits.
pub fn last_real(settings: &Vec<Setting>, id: u32, default: u32) -> (result: u32)
    ensures
        result == real_or(settings_view(settings@), id, default),
{
    match last_value(settings, id) {
        Some(Argument::Real(bits)) => *bits,
        _ => default,
    }
}

/// The last real number that option `id` was given, in bits.
pub fn last_real_given(settings: &Vec<Setting>, id: u32) -> (result: Option<u32>)
    ensures
        result == real_given(settings_view(settings@), id),
{
    match last_value(settings, id) {
        Some(Argument::Real(bits)) => Some(*bits),
        _ => None,
    }
}

/// The last integer that option `id` was given.
pub fn last_integer_given(settings: &Vec<Setting>, id: u32) -> (result: Option<u64>)
    ensures
        result == integer_given(settings_view(settings@), id),
{
    match last_value(settings, id) {
        Some(Argument::Integer(n)) => Some(*n),
        _ => None,
    }
}

/// The last device that option `id` was given.
pub fn last_device(settings: &Vec<Setting>, id: u32) -> (result: Option<u32>)
    ensures
        result == device_given(settings_view(settings@), id),
{
    match last_value(settings, id) {
        Some(Argument::Device(n)) => Some(*n),
        _ => None,
    }
}

/// The last choice that option `id` was given, or `default`.
pub fn last_choice(settings: &Vec<Setting>, id: u32, default: usize) -> (result: usize)
    ensures
        result == choice_or(settings_view(settings@), id, default as int),
{
    match last_value(settings, id) {
        Some(Argument::Choice(at)) => *at,
        _ => default,
    }
}

/// The last extent that option `id` was given, or `default`.
pub open spec fn extent_or(settings: Seq<SettingView>, id: u32, default: (u32, u32)) -> (u32, u32) {
    match latest(settings, id) {
        Some(ArgumentView::Extent(width, height)) => (width, height),
        _ => default,
    }
}

/// The last extent that option `id` was given, or `default`.
pub fn last_extent(settings: &Vec<Setting>, id: u32, default: (u32, u32)) -> (result: (u32, u32))
    ensures
        result == extent_or(settings_view(settings@), id, default),
{
    match last_value(settings, id) {
        Some(Argument::Extent(width, height)) => (*width, *height),
        _ => default,
    }
}

/// The last list that option `id` was given, or `default`.
pub open spec fn list_or(settings: Seq<SettingView>, id: u32, default: Seq<u64>) -> Seq<u64> {
    match latest(settings, id) {
        Some(ArgumentView::List(list)) => list,
        _ => default,
    }
}

/// The last list that option `id` was given, or `default`.
pub fn last_list(settings: &Vec<Setting>, id: u32, default: Vec<u64>) -> (result: Vec<u64>)
    ensures
        result@ == list_or(settings_view(settings@), id, default@),
{
    match last_value(settings, id) {
        Some(Argument::List(list)) => list.clone(),
        _ => default,
    }
}

/// What named cases say.
pub open spec fn cases_view(cases: Seq<(String, u64)>) -> Seq<(Seq<char>, u64)> {
    cases.map_values(|case: (String, u64)| (case.0@, case.1))
}

/// Every case that option `id` was given, in order.
pub open spec fn cases_given(settings: Seq<SettingView>, id: u32) -> Seq<(Seq<char>, u64)>
    decreases settings.len(),
{
    if settings.len() == 0 {
        Seq::empty()
    } else {
        match (settings.last().id == id, settings.last().value) {
            (true, ArgumentView::Case(name, index)) => cases_given(settings.drop_last(), id).push(
                (name, index),
            ),
            _ => cases_given(settings.drop_last(), id),
        }
    }
}

/// Every case that option `id` was given, in order.
pub fn all_cases(settings: &Vec<Setting>, id: u32) -> (result: Vec<(String, u64)>)
    ensures
        cases_view(result@) == cases_given(settings_view(settings@), id),
{
    let ghost all = settings_view(settings@);
    let mut cases: Vec<(String, u64)> = Vec::new();
    let mut i: usize = 0;
    assert(cases_view(cases@) =~= Seq::<(Seq<char>, u64)>::empty());
    assert(all.take(0).len() == 0);
    while i < settings.len()
        invariant
            i <= settings.len(),
            all == settings_view(settings@),
            cases_view(cases@) == cases_given(all.take(i as int), id),
        decreases settings.len() - i,
    {
        let ghost before = cases_view(cases@);
        assert(all.take(i + 1).last() == settings@[i as int]@);
        assert(all.take(i + 1).drop_last() =~= all.take(i as int));
        if settings[i].id == id {
            match &settings[i].value {
                Argument::Case(name, index) => {
                    cases.push((name.clone(), *index));
                    assert(cases_view(cases@) =~= before.push((name@, *index)));
                },
                _ => {},
            }
        }
        i = i + 1;
    }
    assert(all.take(all.len() as int) =~= all);
    cases
}

/// The characters of an optional text.
pub open spec fn text_option(text: Option<String>) -> Option<Seq<char>> {
    match text {
        Some(text) => Some(text@),
        None => None,
    }
}

/// The last text that option `id` was given.
pub fn last_text(settings: &Vec<Setting>, id: u32) -> (result: Option<String>)
    ensures
        text_option(result) == text_given(settings_view(settings@), id),
{
    match last_value(settings, id) {
        Some(Argument::Text(text)) => Some(text.clone()),
        _ => None,
    }
}

/// The last text that option `id` was given, or `default`.
pub fn last_text_or(settings: &Vec<Setting>, id: u32, default: &str) -> (result: String)
    ensures
        result@ == text_or(settings_view(settings@), id, default@),
{
    match last_text(settings, id) {
        Some(text) => text,
        None => default.to_owned(),
    }
}

/// The characters of each text.
pub open spec fn texts_view(texts: Seq<String>) -> Seq<Seq<char>> {
    texts.map_values(|text: String| text@)
}

/// Every text that option `id` was given, in order.
pub open spec fn texts_given(settings: Seq<SettingView>, id: u32) -> Seq<Seq<char>>
    decreases settings.len(),
{
    if settings.len() == 0 {
        Seq::empty()
    } else {
        match (settings.last().id == id, settings.last().value) {
            (true, ArgumentView::Text(text)) => texts_given(settings.drop_last(), id).push(text),
            _ => texts_given(settings.drop_last(), id),
        }
    }
}

/// Every text that option `id` was given, in order.
pub fn all_texts(settings: &Vec<Setting>, id: u32) -> (result: Vec<String>)
    ensures
        texts_view(result@) == texts_given(settings_view(settings@), id),
{
    let ghost all = settings_view(settings@);
    let mut texts: Vec<String> = Vec::new();
    let mut i: usize = 0;
    assert(texts_view(texts@) =~= Seq::<Seq<char>>::empty());
    assert(all.take(0).len() == 0);
    while i < settings.len()
        invariant
            i <= settings.len(),
            all == settings_view(settings@),
            texts_view(texts@) == texts_given(all.take(i as int), id),
        decreases settings.len() - i,
    {
        let ghost before = texts_view(texts@);
        assert(all.take(i + 1).last() == settings@[i as int]@);
        assert(all.take(i + 1).drop_last() =~= all.take(i as int));
        if settings[i].id == id {
            match &settings[i].value {
                Argument::Text(text) => {
                    texts.push(text.clone());
                    assert(texts_view(texts@) =~= before.push(text@));
                },
                _ => {},
            }
        }
        i = i + 1;
    }
    assert(all.take(all.len() as int) =~= all);
    texts
}

/// Of two occurrences of an option the later one counts.
pub proof fn later_value_counts(settings: Seq<SettingView>, added: SettingView)
    ensures
        latest(settings.push(added), added.id) == Some(added.value),
        forall|id: u32|
            id != added.id ==> #[trigger] latest(settings.push(added), id) == latest(settings, id),
{
    assert(settings.push(added).drop_last() =~= settings);
}

/// A command line without words gives no settings.
pub proof fn empty_line_sets_nothing(table: Seq<OptView>, greedy: bool)
    ensures
        scanned(Seq::empty(), table, greedy, 0, Seq::empty()) == Ok::<Seq<SettingView>, FaultView>(
            Seq::empty(),
        ),
{
}

/// The words in which a tool with this usage text reports a fault.
pub open spec fn described(fault: FaultView, usage: Seq<char>) -> Seq<char> {
    match fault {
        FaultView::Help => usage,
        FaultView::Missing(flag) => flag + " needs a value"@,
        FaultView::Unknown(flag) => "unknown option "@ + text::quoted(flag) + "\n\n"@ + usage,
        FaultView::Integer(flag, f) => flag + ": "@ + text::int_fault_words(f),
        FaultView::Real(flag, message) => flag + ": "@ + message,
        FaultView::Device(message) => message,
        FaultView::Choice(noun, t) => "unknown "@ + noun + " "@ + text::quoted(t),
        FaultView::ExtentForm(t) => "--lr wants WxH, got "@ + text::quoted(t),
        FaultView::ExtentWidth(f) => "--lr width: "@ + text::int_fault_words(f),
        FaultView::ExtentHeight(f) => "--lr height: "@ + text::int_fault_words(f),
        FaultView::CaseForm(t) => "case "@ + text::quoted(t) + " must be NAME:INDEX"@,
        FaultView::CaseName(t) => "case name "@ + text::quoted(t)
            + " must use lowercase letters, digits, and hyphens"@,
        FaultView::CaseIndex(t, f) => "invalid case index "@ + text::quoted(t) + ": "@
            + text::int_fault_words(f),
        FaultView::ListItem(t, f) => "invalid block size "@ + text::quoted(t) + ": "@
            + text::int_fault_words(f),
    }
}

impl Fault {
    /// The fault in words.
    pub fn describe(&self, usage: &str) -> (result: String)
        ensures
            result@ == described(self@, usage@),
    {
        match self {
            Fault::Help => usage.to_owned(),
            Fault::Missing(flag) => join2(flag.as_str(), " needs a value"),
            Fault::Unknown(flag) => join4(
                "unknown option ",
                quote(flag.as_str()).as_str(),
                "\n\n",
                usage,
            ),
            Fault::Integer(flag, f) => join3(flag.as_str(), ": ", f.words()),
            Fault::Real(flag, message) => join3(flag.as_str(), ": ", message.as_str()),
            Fault::Device(message) => message.clone(),
            Fault::Choice(noun, t) => join4(
                "unknown ",
                noun.as_str(),
                " ",
                quote(t.as_str()).as_str(),
            ),
            Fault::ExtentForm(t) => join2("--lr wants WxH, got ", quote(t.as_str()).as_str()),
            Fault::ExtentWidth(f) => join2("--lr width: ", f.words()),
            Fault::ExtentHeight(f) => join2("--lr height: ", f.words()),
            Fault::CaseForm(t) => join3("case ", quote(t.as_str()).as_str(), " must be NAME:INDEX"),
            Fault::CaseName(t) => join3(
                "case name ",
                quote(t.as_str()).as_str(),
                " must use lowercase letters, digits, and hyphens",
            ),
            Fault::CaseIndex(t, f) => join4(
                "invalid case index ",
                quote(t.as_str()).as_str(),
                ": ",
                f.words(),
            ),
            Fault::ListItem(t, f) => join4(
                "invalid block size ",
                quote(t.as_str()).as_str(),
                ": ",
                f.words(),
            ),
        }
    }
}

/// Whether a line of the table takes what this setting holds.
pub open spec fn fits(table: Seq<OptView>, setting: SettingView) -> bool {
    exists|k: int|
        0 <= k < table.len() && (#[trigger] table[k]).id == setting.id && takes(
            table[k].kind,
            setting.value,
        )
}

/// Whether an option of this kind can hold this value.
pub open spec fn takes(kind: KindView, value: ArgumentView) -> bool {
    match kind {
        KindView::Help => false,
        KindView::Switch => value is Given,
        KindView::Text => value is Text,
        KindView::Integer(max) => value matches ArgumentView::Integer(n) && n <= max,
        KindView::Real => value is Real,
        KindView::Device => value is Device,
        KindView::Choice(noun, list) => value matches ArgumentView::Choice(at) && 0 <= at
            < list.len(),
        KindView::Extent => value is Extent,
        KindView::Case => value is Case,
        KindView::List => value is List,
    }
}

/// Every setting that a command line gives is one that the table allows: an
/// integer within its bound, a choice among its words.
pub proof fn settings_fit_the_table(
    words: Seq<WordView>,
    table: Seq<OptView>,
    greedy: bool,
    i: int,
    done: Seq<SettingView>,
)
    requires
        forall|k: int| 0 <= k < done.len() ==> fits(table, #[trigger] done[k]),
    ensures
        scanned(words, table, greedy, i, done) matches Ok(settings) ==> forall|k: int|
            0 <= k < settings.len() ==> fits(table, #[trigger] settings[k]),
    decreases words.len() - i,
{
    if 0 <= i < words.len() {
        lemma_lookup(table, words[i].text, 0);
        match lookup(table, words[i].text, 0) {
            None => {},
            Some(opt) => {
                if opt.kind is Help {
                } else if opt.kind is Switch {
                    let added = SettingView { id: opt.id, value: ArgumentView::Given };
                    assert(fits(table, added));
                    settings_fit_the_table(words, table, greedy, i + 1, done.push(added));
                } else if i + 1 < words.len() {
                    match read_value(opt.kind, words[i].text, words[i + 1]) {
                        Err(_) => {},
                        Ok(value) => {
                            lemma_value_taken(opt.kind, words[i].text, words[i + 1]);
                            let added = SettingView { id: opt.id, value };
                            assert(fits(table, added));
                            settings_fit_the_table(words, table, greedy, i + 2, done.push(added));
                        },
                    }
                }
            },
        }
    }
}

proof fn lemma_lookup(table: Seq<OptView>, name: Seq<char>, from: int)
    ensures
        lookup(table, name, from) matches Some(opt) ==> exists|k: int|
            0 <= k < table.len() && #[trigger] table[k] == opt,
    decreases table.len() - from,
{
    if 0 <= from < table.len() && table[from].name != name {
        lemma_lookup(table, name, from + 1);
    } else if 0 <= from < table.len() {
        assert(table[from] == table[from]);
    }
}

proof fn lemma_place(list: Seq<Seq<char>>, t: Seq<char>, from: int)
    ensures
        place(list, t, from) matches Some(at) ==> 0 <= at < list.len(),
    decreases list.len() - from,
{
    if 0 <= from < list.len() && list[from] != t {
        lemma_place(list, t, from + 1);
    }
}

proof fn lemma_value_taken(kind: KindView, flag: Seq<char>, w: WordView)
    requires
        !(kind is Help),
    ensures
        read_value(kind, flag, w) matches Ok(value) ==> takes(kind, value),
{
    match kind {
        KindView::Integer(max) => {
            text::unsigned_is_bounded(w.text, max as int);
        },
        KindView::Choice(noun, list) => {
            lemma_place(list, w.text, 0);
        },
        _ => {},
    }
}

proof fn lemma_first_of_name(table: Seq<OptView>, name: Seq<char>, from: int)
    requires
        0 <= from,
    ensures
        match lookup(table, name, from) {
            Some(opt) => exists|k: int|
                {
                    &&& from <= k < table.len()
                    &&& #[trigger] table[k] == opt && opt.name == name
                    &&& forall|j: int| from <= j < k ==> (#[trigger] table[j]).name != name
                },
            None => forall|k: int| from <= k < table.len() ==> (#[trigger] table[k]).name != name,
        },
    decreases table.len() - from,
{
    if from < table.len() {
        lemma_first_of_name(table, name, from + 1);
        if table[from].name == name {
            assert(lookup(table, name, from) == Some(table[from]));
        } else if lookup(table, name, from + 1) is Some {
            let opt = lookup(table, name, from + 1)->0;
            let k = choose|k: int|
                {
                    &&& from + 1 <= k < table.len()
                    &&& #[trigger] table[k] == opt && opt.name == name
                    &&& forall|j: int| from + 1 <= j < k ==> (#[trigger] table[j]).name != name
                };
            assert(table[k] == opt);
        }
    }
}

/// A line that starts with a word of the table's is read by the entry of that name.
/// One that starts with any other word is refused.
pub proof fn lines_start_with_a_name(
    words: Vec<Word>,
    table: Vec<Opt>,
    result: Result<Vec<Setting>, Fault>,
    k: int,
)
    requires
        call_ensures(scan, (&words, &table, false), result),
        words@.len() > 0,
        0 <= k < table@.len(),
    ensures
        (forall|j: int| 0 <= j < table@.len() ==> (#[trigger] table@[j]).name@ != words@[0].text@)
            ==> result is Err && result->Err_0@ == FaultView::Unknown(words@[0].text@),
        table@[k].name@ == words@[0].text@ && (forall|j: int|
            0 <= j < k ==> (#[trigger] table@[j]).name@ != words@[0].text@) ==> {
            &&& table@[k].kind is Help ==> result is Err && result->Err_0 is Help
            &&& result is Ok ==> result->Ok_0@.len() > 0 && result->Ok_0@[0].id == table@[k].id
            &&& !(table@[k].kind is Help) && !(table@[k].kind is Switch) && words@.len() == 1
                ==> result is Err && result->Err_0@ == FaultView::Missing(words@[0].text@)
        },
{
    let (w, t) = (words_view(words@), table_view(table@));
    let name = words@[0].text@;
    assert(w[0].text == name);
    lemma_first_of_name(t, name, 0);
    if forall|j: int| 0 <= j < table@.len() ==> (#[trigger] table@[j]).name@ != name {
        assert forall|j: int| 0 <= j < t.len() implies (#[trigger] t[j]).name != name by {
            assert(table@[j].name@ != name);
        }
        assert(lookup(t, name, 0) is None);
        assert(scan_result(result) == Err::<Seq<SettingView>, FaultView>(
            FaultView::Unknown(name),
        ));
    }
    if table@[k].name@ == name && forall|j: int|
        0 <= j < k ==> (#[trigger] table@[j]).name@ != name {
        assert(t[k].name == name);
        let opt = lookup(t, name, 0)->0;
        let at = choose|at: int|
            {
                &&& 0 <= at < t.len()
                &&& #[trigger] t[at] == opt && opt.name == name
                &&& forall|j: int| 0 <= j < at ==> (#[trigger] t[j]).name != name
            };
        if at < k {
            assert(table@[at].name@ != name);
        }
        assert(at == k);
        assert(opt == table@[k]@);
        if result is Ok {
            let settings = settings_view(result->Ok_0@);
            if opt.kind is Switch {
                let set = SettingView { id: opt.id, value: ArgumentView::Given };
                let first = Seq::<SettingView>::empty().push(set);
                lemma_settings_stay(w, t, false, 1, first);
                assert(settings.take(1)[0] == first[0]);
            } else {
                let value = read_value(opt.kind, name, w[1])->Ok_0;
                let set = SettingView { id: opt.id, value };
                let first = Seq::<SettingView>::empty().push(set);
                lemma_settings_stay(w, t, false, 2, first);
                assert(settings.take(1)[0] == first[0]);
            }
            assert(settings[0].id == opt.id);
        }
    }
}

proof fn lemma_settings_stay(
    words: Seq<WordView>,
    table: Seq<OptView>,
    greedy: bool,
    i: int,
    done: Seq<SettingView>,
)
    ensures
        scanned(words, table, greedy, i, done) matches Ok(settings) ==> done.len() <= settings.len()
            && settings.take(done.len() as int) == done,
    decreases words.len() - i,
{
    if 0 <= i < words.len() && scanned(words, table, greedy, i, done) is Ok {
        let settings = scanned(words, table, greedy, i, done)->Ok_0;
        let opt = lookup(table, words[i].text, 0)->0;
        let (set, next) = if opt.kind is Switch {
            (SettingView { id: opt.id, value: ArgumentView::Given }, i + 1)
        } else {
            let value = read_value(opt.kind, words[i].text, words[i + 1])->Ok_0;
            (SettingView { id: opt.id, value }, i + 2)
        };
        let more = done.push(set);
        lemma_settings_stay(words, table, greedy, next, more);
        assert(settings.take(more.len() as int) == more);
        assert(settings.take(done.len() as int) =~= more.take(done.len() as int)) by {
            assert forall|j: int| 0 <= j < done.len() implies settings[j] == more[j] by {
                assert(settings.take(more.len() as int)[j] == more[j]);
            }
        }
        assert(more.take(done.len() as int) =~= done);
    } else if scanned(words, table, greedy, i, done) is Ok {
        assert(done.take(done.len() as int) =~= done);
    }
}

proof fn lemma_later_words(
    a: Seq<WordView>,
    b: Seq<WordView>,
    table: Seq<OptView>,
    greedy: bool,
    j: int,
    done: Seq<SettingView>,
)
    requires
        0 <= j,
    ensures
        scanned(a + b, table, greedy, a.len() + j, done) == scanned(b, table, greedy, j, done),
    decreases b.len() - j,
{
    if j < b.len() {
        let i = a.len() + j;
        let both = a + b;
        assert(both[i] == b[j]);
        if j + 1 < b.len() {
            assert(both[i + 1] == b[j + 1]);
        }
        match lookup(table, b[j].text, 0) {
            None => {},
            Some(opt) => if opt.kind is Switch {
                let set = SettingView { id: opt.id, value: ArgumentView::Given };
                lemma_later_words(a, b, table, greedy, j + 1, done.push(set));
            } else if !(opt.kind is Help) && j + 1 < b.len() {
                match read_value(opt.kind, b[j].text, b[j + 1]) {
                    Err(_) => {},
                    Ok(value) => {
                        let set = SettingView { id: opt.id, value };
                        lemma_later_words(a, b, table, greedy, j + 2, done.push(set));
                    },
                }
            },
        }
    }
}

/// A line that reads can be continued: what follows it is read as a line of its own,
/// and its settings come after those before it.
pub proof fn lines_are_read_from_left_to_right(
    a: Seq<WordView>,
    b: Seq<WordView>,
    table: Seq<OptView>,
    greedy: bool,
    i: int,
    done: Seq<SettingView>,
)
    requires
        0 <= i <= a.len(),
        scanned(a, table, greedy, i, done) is Ok,
    ensures
        scanned(a + b, table, greedy, i, done) == scanned(
            b,
            table,
            greedy,
            0,
            scanned(a, table, greedy, i, done)->Ok_0,
        ),
    decreases a.len() - i,
{
    if i == a.len() {
        lemma_later_words(a, b, table, greedy, 0, done);
    } else {
        let both = a + b;
        assert(both[i] == a[i]);
        let opt = lookup(table, a[i].text, 0)->0;
        if opt.kind is Switch {
            let set = SettingView { id: opt.id, value: ArgumentView::Given };
            lines_are_read_from_left_to_right(a, b, table, greedy, i + 1, done.push(set));
        } else {
            assert(both[i + 1] == a[i + 1]);
            let value = read_value(opt.kind, a[i].text, a[i + 1])->Ok_0;
            let set = SettingView { id: opt.id, value };
            lines_are_read_from_left_to_right(a, b, table, greedy, i + 2, done.push(set));
        }
    }
}

/// Texts and cases are listed in the order in which they were given, and those of
/// other options are left out.
pub proof fn repeated_options_are_listed(settings: Seq<SettingView>, added: SettingView, id: u32)
    ensures
        texts_given(settings.push(added), id) == match added.value {
            ArgumentView::Text(text) if added.id == id => texts_given(settings, id).push(text),
            _ => texts_given(settings, id),
        },
        cases_given(settings.push(added), id) == match added.value {
            ArgumentView::Case(name, index) if added.id == id => cases_given(settings, id).push(
                (name, index),
            ),
            _ => cases_given(settings, id),
        },
{
    assert(settings.push(added).drop_last() =~= settings);
}

proof fn lemma_joined(a: Seq<char>, c: char, b: Seq<char>, other: char)
    requires
        forall|i: int| 0 <= i < a.len() ==> #[trigger] a[i] != c && a[i] != other,
    ensures
        ({
            let s = a.push(c) + b;
            &&& text::cut(s, c, other) == a.len()
            &&& text::cut(s, other, c) == a.len()
            &&& a.len() < s.len()
            &&& s.take(a.len() as int) == a
            &&& s.skip(a.len() as int + 1) == b
        }),
{
    let s = a.push(c) + b;
    assert forall|j: int| 0 <= j < a.len() implies #[trigger] s[j] != c && s[j] != other by {
        assert(s[j] == a[j]);
    }
    assert(s[a.len() as int] == c);
    text::cut_is_first(s, c, other, a.len() as int);
    text::cut_is_first(s, other, c, a.len() as int);
    assert(s.take(a.len() as int) =~= a);
    assert(s.skip(a.len() as int + 1) =~= b);
}

/// An extent is read as it is written: its width, `x` or `X`, its height.
pub proof fn extents_read_back(width: u32, height: u32, between: char)
    requires
        between == 'x' || between == 'X',
    ensures
        read_extent(text::decimal(width as nat).push(between) + text::decimal(height as nat)) == Ok::<
            ArgumentView,
            FaultView,
        >(ArgumentView::Extent(width, height)),
{
    text::decimal_is_digits(width as nat);
    let a = text::decimal(width as nat);
    assert forall|i: int| 0 <= i < a.len() implies #[trigger] a[i] != 'x' && a[i] != 'X' by {
        assert(text::digit(a[i]));
    }
    if between == 'x' {
        lemma_joined(a, 'x', text::decimal(height as nat), 'X');
    } else {
        lemma_joined(a, 'X', text::decimal(height as nat), 'x');
    }
    text::decimal_reads_back(width as nat, u32::MAX as int);
    text::decimal_reads_back(height as nat, u32::MAX as int);
}

/// A case is read as it is written, its name, `:`, its index, where the name has one
/// or more lowercase letters, digits and hyphens, and nothing else.
pub proof fn cases_read_back(name: Seq<char>, index: usize)
    requires
        forall|i: int|
            0 <= i < name.len() ==> ('a' <= #[trigger] name[i] && name[i] <= 'z') || ('0' <= name[i]
                && name[i] <= '9') || name[i] == '-',
    ensures
        read_case(name.push(':') + text::decimal(index as nat)) == if name.len() > 0 {
            Ok::<ArgumentView, FaultView>(ArgumentView::Case(name, index as u64))
        } else {
            Err(FaultView::CaseName(name))
        },
{
    lemma_joined(name, ':', text::decimal(index as nat), ':');
    text::decimal_reads_back(index as nat, usize::MAX as int);
    assert forall|i: int| 0 <= i < name.len() implies case_char(#[trigger] name[i]) by {
        assert(('a' <= name[i] && name[i] <= 'z') || ('0' <= name[i] && name[i] <= '9') || name[i]
            == '-');
    }
}

/// A list is read number by number: one in front of a list, with a comma between, is
/// the first of it.
pub proof fn lists_are_read_number_by_number(n: u64, rest: Seq<char>, max: u64)
    requires
        n <= max,
    ensures
        read_list(text::decimal(n as nat), max) == Ok::<Seq<u64>, FaultView>(seq![n]),
        read_list(text::decimal(n as nat).push(',') + rest, max) == match read_list(rest, max) {
            Ok(list) => Ok::<Seq<u64>, FaultView>(seq![n] + list),
            Err(fault) => Err(fault),
        },
{
    let a = text::decimal(n as nat);
    text::decimal_is_digits(n as nat);
    text::decimal_reads_back(n as nat, max as int);
    assert forall|i: int| 0 <= i < a.len() implies #[trigger] a[i] != ',' by {
        assert(text::digit(a[i]));
    }
    text::cut_is_first(a, ',', ',', a.len() as int);
    lemma_joined(a, ',', rest, ',');
}

} // verus!
