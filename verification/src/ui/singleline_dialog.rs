//! A dialog that asks for one line of text.

use vstd::prelude::*;
use crate::text::blank;
use crate::text::is_blank;

verus! {

/// What the dialog holds, as mathematical values.
pub struct SinglelineDialogView {
    pub title: Seq<char>,
    pub label_text: Seq<char>,
    pub hint_text: Seq<char>,
    pub error_text: Seq<char>,
    pub is_open: bool,
    pub input: Seq<char>,
    pub validation_error: Option<Seq<char>>,
}

/// A dialog with a title, a label, a hint, one line of input and the message
/// shown for an input that is refused.
#[derive(Debug)]
pub struct SinglelineDialog {
    title: String,
    label_text: String,
    hint_text: String,
    error_text: String,
    is_open: bool,
    input: String,
    validation_error: Option<String>,
}

impl View for SinglelineDialog {
    type V = SinglelineDialogView;

    closed spec fn view(&self) -> SinglelineDialogView {
        SinglelineDialogView {
            title: self.title@,
            label_text: self.label_text@,
            hint_text: self.hint_text@,
            error_text: self.error_text@,
            is_open: self.is_open,
            input: self.input@,
            validation_error: match self.validation_error {
                Some(e) => Some(e@),
                None => None,
            },
        }
    }
}

impl SinglelineDialog {
    /// A closed dialog with empty input.
    pub fn new(title: &str, label_text: &str, hint_text: &str, error_text: &str) -> (r:
        SinglelineDialog)
        ensures
            r@ == (SinglelineDialogView {
                title: title@,
                label_text: label_text@,
                hint_text: hint_text@,
                error_text: error_text@,
                is_open: false,
                input: Seq::<char>::empty(),
                validation_error: None,
            }),
    {
        SinglelineDialog {
            title: title.to_owned(),
            label_text: label_text.to_owned(),
            hint_text: hint_text.to_owned(),
            error_text: error_text.to_owned(),
            is_open: false,
            input: String::new(),
            validation_error: None,
        }
    }

    /// Puts `text` into the input line.
    pub fn set_input(&mut self, text: &str)
        ensures
            final(self)@ == (SinglelineDialogView { input: text@, ..old(self)@ }),
    {
        self.input = text.to_owned();
    }

    /// Checks the input. A blank input is refused: the dialog then shows its
    /// error text. Any other input clears the error.
    pub fn validate_input(&mut self) -> (r: bool)
        ensures
            r == !is_blank(old(self)@.input),
            final(self)@ == (SinglelineDialogView {
                validation_error: if r {
                    None
                } else {
                    Some(old(self)@.error_text)
                },
                ..old(self)@
            }),
    {
        if blank(self.input.as_str()) {
            self.validation_error = Some(self.error_text.clone());
            false
        } else {
            self.validation_error = None;
            true
        }
    }

    /// Opens the dialog with empty input and no error.
    pub fn open(&mut self)
        ensures
            final(self)@ == (SinglelineDialogView {
                is_open: true,
                input: Seq::<char>::empty(),
                validation_error: None,
                ..old(self)@
            }),
    {
        self.is_open = true;
        self.input = String::new();
        self.validation_error = None;
    }

    /// Reacts to the cancel button: the dialog closes, and input and error
    /// are dropped.
    pub fn cancel(&mut self)
        ensures
            final(self)@ == (SinglelineDialogView {
                is_open: false,
                input: Seq::<char>::empty(),
                validation_error: None,
                ..old(self)@
            }),
    {
        self.is_open = false;
        self.input = String::new();
        self.validation_error = None;
    }

    /// Reacts to the confirm button. An input that passes the check is
    /// handed out, and the dialog closes with empty input; a blank input
    /// leaves the dialog open, showing its error text.
    pub fn confirm(&mut self) -> (r: Option<String>)
        ensures
            match r {
                Some(text) => {
                    &&& !is_blank(old(self)@.input)
                    &&& text@ == old(self)@.input
                    &&& final(self)@ == (SinglelineDialogView {
                        is_open: false,
                        input: Seq::<char>::empty(),
                        validation_error: None,
                        ..old(self)@
                    })
                },
                None => {
                    &&& is_blank(old(self)@.input)
                    &&& final(self)@ == (SinglelineDialogView {
                        validation_error: Some(old(self)@.error_text),
                        ..old(self)@
                    })
                },
            },
    {
        if self.validate_input() {
            let text = self.input.clone();
            self.is_open = false;
            self.input = String::new();
            Some(text)
        } else {
            None
        }
    }

    /// Takes note that the window was closed from outside: the dialog stays
    /// open only if it was open and the window still is.
    pub fn keep_open(&mut self, window_open: bool)
        ensures
            final(self)@ == (SinglelineDialogView {
                is_open: old(self)@.is_open && window_open,
                ..old(self)@
            }),
    {
        self.is_open = self.is_open && window_open;
    }

    /// The key of the window's title.
    pub fn title(&self) -> (r: &str)
        ensures
            r@ == self@.title,
    {
        self.title.as_str()
    }

    /// The key of the label above the input line.
    pub fn label_text(&self) -> (r: &str)
        ensures
            r@ == self@.label_text,
    {
        self.label_text.as_str()
    }

    /// The key of the hint shown in the empty input line.
    pub fn hint_text(&self) -> (r: &str)
        ensures
            r@ == self@.hint_text,
    {
        self.hint_text.as_str()
    }

    /// Whether the dialog is open.
    pub fn is_open(&self) -> (r: bool)
        ensures
            r == self@.is_open,
    {
        self.is_open
    }

    /// The input line.
    pub fn input(&self) -> (r: &str)
        ensures
            r@ == self@.input,
    {
        self.input.as_str()
    }

    /// The key of the error to show, if the last check refused the input.
    pub fn validation_error(&self) -> (r: Option<&str>)
        ensures
            match r {
                Some(e) => self@.validation_error == Some(e@),
                None => self@.validation_error is None,
            },
    {
        match &self.validation_error {
            Some(e) => Some(e.as_str()),
            None => None,
        }
    }
}

} // verus!
