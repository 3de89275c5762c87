//! The state of the password-generator dialog: the generator configuration,
//! the password generated under it, and which option row is highlighted. The
//! terminal front end maps keys to these transitions and renders the state.

use vstd::prelude::*;

use crate::password_generator::{
    char_allowed, enabled_classes, generate_password, meets_requirements_spec, PasswordConfig,
};

verus! {

/// How many option rows the dialog shows: length, the four classes, and the
/// ambiguity filter.
pub const OPTION_COUNT: usize = 6;

/// The generated password always reflects the current configuration.
pub open spec fn generated_ok(cfg: PasswordConfig, s: Seq<char>) -> bool {
    &&& s.len() == cfg.length
    &&& forall|k: int| 0 <= k < s.len() ==> char_allowed(cfg, #[trigger] s[k])
    &&& enabled_classes(cfg) <= cfg.length ==> meets_requirements_spec(cfg, s)
}

/// The dialog's state.
pub struct PasswordGeneratorModal {
    config: PasswordConfig,
    generated: String,
    current_option: usize,
}

impl PasswordGeneratorModal {
    pub closed spec fn spec_config(&self) -> PasswordConfig {
        self.config
    }

    pub closed spec fn spec_generated(&self) -> Seq<char> {
        self.generated@
    }

    pub closed spec fn spec_current_option(&self) -> int {
        self.current_option as int
    }

    /// The dialog is well formed: the highlighted row exists and the shown
    /// password was generated under the shown configuration.
    pub open spec fn wf(&self) -> bool {
        &&& 0 <= self.spec_current_option() < OPTION_COUNT
        &&& generated_ok(self.spec_config(), self.spec_generated())
    }

    /// A fresh dialog: default configuration, a password already generated.
    pub fn new() -> (r: Self)
        ensures
            r.wf(),
            r.spec_current_option() == 0,
            r.spec_config().length == 20,
    {
        let config = PasswordConfig::default();
        let generated = generate_password(&config);
        PasswordGeneratorModal { config, generated, current_option: 0 }
    }

    /// Draw a fresh password under the current configuration; the shown
    /// password matches the configuration again whatever it was before.
    pub fn regenerate(&mut self)
        requires
            0 <= old(self).spec_current_option() < OPTION_COUNT,
        ensures
            final(self).wf(),
            final(self).spec_config() == old(self).spec_config(),
            final(self).spec_current_option() == old(self).spec_current_option(),
    {
        self.generated = generate_password(&self.config);
    }

    /// The password currently on offer.
    pub fn generated_password(&self) -> (r: &str)
        ensures
            r@ == self.spec_generated(),
    {
        self.generated.as_str()
    }

    /// The current configuration.
    pub fn config(&self) -> (r: &PasswordConfig)
        ensures
            *r == self.spec_config(),
    {
        &self.config
    }

    /// The highlighted option row.
    pub fn current_option(&self) -> (r: usize)
        ensures
            r == self.spec_current_option(),
    {
        self.current_option
    }

    /// Highlight the next option row, wrapping around.
    pub fn next_option(&mut self)
        requires
            old(self).wf(),
        ensures
            final(self).wf(),
            final(self).spec_config() == old(self).spec_config(),
            final(self).spec_generated() == old(self).spec_generated(),
            final(self).spec_current_option() == (old(self).spec_current_option() + 1) % (
            OPTION_COUNT as int),
    {
        self.current_option = (self.current_option + 1) % OPTION_COUNT;
    }

    /// Highlight the previous option row, wrapping around.
    pub fn prev_option(&mut self)
        requires
            old(self).wf(),
        ensures
            final(self).wf(),
            final(self).spec_config() == old(self).spec_config(),
            final(self).spec_generated() == old(self).spec_generated(),
            final(self).spec_current_option() == (if old(self).spec_current_option() == 0 {
                OPTION_COUNT - 1
            } else {
                old(self).spec_current_option() - 1
            }),
    {
        if self.current_option == 0 {
            self.current_option = OPTION_COUNT - 1;
        } else {
            self.current_option = self.current_option - 1;
        }
    }

    /// Act on the highlighted row: grow the length by one (up to 128) or flip
    /// the row's flag; then regenerate.
    pub fn toggle_current(&mut self)
        requires
            old(self).wf(),
        ensures
            final(self).wf(),
            final(self).spec_current_option() == old(self).spec_current_option(),
            old(self).spec_current_option() == 0 ==> final(self).spec_config().length == (if old(self).spec_config().length < 128 {
                old(self).spec_config().length + 1
            } else {
                old(self).spec_config().length as int
            }),
            old(self).spec_current_option() == 1 ==> final(self).spec_config().uppercase == !old(self).spec_config().uppercase,
            old(self).spec_current_option() == 2 ==> final(self).spec_config().lowercase == !old(self).spec_config().lowercase,
            old(self).spec_current_option() == 3 ==> final(self).spec_config().digits == !old(self).spec_config().digits,
            old(self).spec_current_option() == 4 ==> final(self).spec_config().symbols == !old(self).spec_config().symbols,
            old(self).spec_current_option() == 5 ==> final(self).spec_config().exclude_ambiguous
                == !old(self).spec_config().exclude_ambiguous,
    {
        if self.current_option == 0 {
            if self.config.length < 128 {
                self.config.length = self.config.length + 1;
            }
        } else if self.current_option == 1 {
            self.config.uppercase = !self.config.uppercase;
        } else if self.current_option == 2 {
            self.config.lowercase = !self.config.lowercase;
        } else if self.current_option == 3 {
            self.config.digits = !self.config.digits;
        } else if self.current_option == 4 {
            self.config.symbols = !self.config.symbols;
        } else {
            self.config.exclude_ambiguous = !self.config.exclude_ambiguous;
        }
        self.regenerate();
    }

    /// Shrink the length by one (down to 4) when the length row is
    /// highlighted; then regenerate.
    pub fn decrease_length(&mut self)
        requires
            old(self).wf(),
        ensures
            final(self).wf(),
            final(self).spec_current_option() == old(self).spec_current_option(),
            final(self).spec_config().length == (if old(self).spec_current_option() == 0 && old(self).spec_config().length > 4 {
                (old(self).spec_config().length - 1) as int
            } else {
                old(self).spec_config().length as int
            }),
    {
        if self.current_option == 0 && self.config.length > 4 {
            self.config.length = self.config.length - 1;
            self.regenerate();
        }
    }

    /// Grow the length by one (up to 128) when the length row is highlighted;
    /// then regenerate.
    pub fn increase_length(&mut self)
        requires
            old(self).wf(),
        ensures
            final(self).wf(),
            final(self).spec_current_option() == old(self).spec_current_option(),
            final(self).spec_config().length == (if old(self).spec_current_option() == 0 && old(self).spec_config().length < 128 {
                old(self).spec_config().length + 1
            } else {
                old(self).spec_config().length as int
            }),
    {
        if self.current_option == 0 && self.config.length < 128 {
            self.config.length = self.config.length + 1;
            self.regenerate();
        }
    }
}

} // verus!
