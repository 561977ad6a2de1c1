//! The state of a calculator between two key presses: the text on the
//! display, the last error and the history of results.

use vstd::prelude::*;
use crate::calculator::{get_rpn, rpn_text, text_of};

verus! {

/// An expression and the result that was shown for it.
pub struct HistoryEntry {
    pub expression: String,
    pub result: String,
}

/// The state of a calculator.
pub struct CalculatorApp {
    /// The text on the display: the expression being typed, or the last
    /// result.
    pub display_text: String,
    /// The error of the last request, if it failed.
    pub error_msg: Option<String>,
    /// The results shown so far, the oldest first.
    pub history: Vec<HistoryEntry>,
}

/// A history entry as the two texts it holds.
pub struct EntryView {
    pub expression: Seq<char>,
    pub result: Seq<char>,
}

/// The state of a calculator as the texts it holds.
pub struct AppView {
    pub display_text: Seq<char>,
    pub error_msg: Option<Seq<char>>,
    pub history: Seq<EntryView>,
}

impl View for HistoryEntry {
    type V = EntryView;

    open spec fn view(&self) -> EntryView {
        EntryView { expression: self.expression@, result: self.result@ }
    }
}

impl View for CalculatorApp {
    type V = AppView;

    open spec fn view(&self) -> AppView {
        AppView {
            display_text: self.display_text@,
            error_msg: match self.error_msg {
                Some(message) => Some(message@),
                None => None,
            },
            history: self.history@.map_values(|entry: HistoryEntry| entry@),
        }
    }
}

/// The mark that precedes an error on the display.
pub open spec fn error_mark() -> Seq<char> {
    "🚫 "@
}

impl AppView {
    /// The state of a calculator that was never used.
    pub open spec fn initial() -> AppView {
        AppView { display_text: Seq::empty(), error_msg: None, history: Seq::empty() }
    }

    /// The state after a request came back. A result replaces the display
    /// text, joins the history together with the expression it is the
    /// result of, and clears the error. An error is marked and kept, and
    /// leaves display and history as they were.
    pub open spec fn show(self, result: Result<Seq<char>, Seq<char>>) -> AppView {
        match result {
            Ok(text) => AppView {
                display_text: text,
                error_msg: None,
                history: self.history.push(
                    EntryView { expression: self.display_text, result: text },
                ),
            },
            Err(message) => AppView { error_msg: Some(error_mark() + message), ..self },
        }
    }

    /// The state after the key with the given label was pressed, and
    /// whether the key asks for the value of the display text. `C` clears
    /// the display. `RPN` shows the postfix form of the display text. `=`
    /// asks for its value and changes nothing by itself. The label of any
    /// other key is typed at the end of the display text.
    pub open spec fn press(self, label: Seq<char>) -> (AppView, bool) {
        if label == seq!['C'] {
            (AppView { display_text: Seq::empty(), ..self }, false)
        } else if label == seq!['='] {
            (self, true)
        } else if label == seq!['R', 'P', 'N'] {
            (self.show(rpn_text(self.display_text)), false)
        } else {
            (AppView { display_text: self.display_text + label, ..self }, false)
        }
    }
}

impl Default for CalculatorApp {
    /// Makes the state of a calculator that was never used.
    fn default() -> (app: CalculatorApp)
        ensures
            app@ == AppView::initial(),
    {
        let app = CalculatorApp { display_text: String::new(), error_msg: None, history: Vec::new() };
        assert(app@.history == Seq::<EntryView>::empty());
        app
    }
}

impl CalculatorApp {
    /// Shows what a request came back with: see [`AppView::show`].
    pub fn show_result(&mut self, result: Result<String, String>)
        ensures
            final(self)@ == old(self)@.show(text_of(result)),
    {
        match result {
            Ok(text) => {
                let entry = HistoryEntry { expression: self.display_text.clone(), result: text.clone() };
                let ghost added = entry@;
                self.history.push(entry);
                self.display_text = text;
                self.error_msg = None;
                assert(self@.history == old(self)@.history.push(added));
            },
            Err(message) => {
                let mut shown = String::from_str("🚫 ");
                shown.append(message.as_str());
                self.error_msg = Some(shown);
            },
        }
    }

    /// Handles a press of the key with the given label: see
    /// [`AppView::press`]. Where the result is `true`, the caller computes
    /// the value of the display text and hands it to
    /// [`CalculatorApp::show_result`].
    pub fn press(&mut self, label: &str) -> (evaluate: bool)
        ensures
            (final(self)@, evaluate) == old(self)@.press(label@),
    {
        let length = label.unicode_len();
        if length == 1 && label.get_char(0) == 'C' {
            assert(label@ == seq!['C']);
            self.display_text = String::new();
            false
        } else if length == 1 && label.get_char(0) == '=' {
            assert(label@ == seq!['=']);
            true
        } else if length == 3 && label.get_char(0) == 'R' && label.get_char(1) == 'P'
            && label.get_char(2) == 'N' {
            assert(label@ == seq!['R', 'P', 'N']);
            let result = get_rpn(self.display_text.as_str());
            self.show_result(result);
            false
        } else {
            assert(label@ != seq!['C'] && label@ != seq!['='] && label@ != seq!['R', 'P', 'N']) by {
                if label@.len() == 1 {
                    assert(seq!['C'][0] == 'C' && seq!['='][0] == '=');
                }
                if label@.len() == 3 {
                    let rpn = seq!['R', 'P', 'N'];
                    assert(rpn[0] == 'R' && rpn[1] == 'P' && rpn[2] == 'N');
                }
            }
            self.display_text.append(label);
            false
        }
    }
}

} // verus!
