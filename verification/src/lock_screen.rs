//! The state of the lock screen: the password being typed, an error line,
//! and whether a vault file already exists (create versus unlock). The
//! terminal front end feeds characters in and renders the state out; the
//! decisions live here.

use vstd::prelude::*;

use vstd::string::StrSliceExecFns;

verus! {

/// What submitting the typed password asks for.
pub enum LockSubmit {
    /// Nothing was typed; an error message was set instead.
    EmptyPassword,
    /// Create a brand-new vault under this password.
    CreateVault(String),
    /// Unlock the existing vault with this password.
    UnlockVault(String),
}

/// The lock screen's state.
pub struct LockScreen {
    password_input: String,
    error_message: Option<String>,
    vault_exists: bool,
}

impl LockScreen {
    pub closed spec fn spec_input(&self) -> Seq<char> {
        self.password_input@
    }

    pub closed spec fn spec_error(&self) -> Option<String> {
        self.error_message
    }

    pub closed spec fn spec_vault_exists(&self) -> bool {
        self.vault_exists
    }

    /// A fresh lock screen: nothing typed, no error.
    pub fn new(vault_exists: bool) -> (r: Self)
        ensures
            r.spec_input().len() == 0,
            r.spec_error() is None,
            r.spec_vault_exists() == vault_exists,
    {
        LockScreen { password_input: String::new(), error_message: None, vault_exists }
    }

    /// Show an error line.
    pub fn set_error(&mut self, msg: String)
        ensures
            final(self).spec_error() == Some(msg),
            final(self).spec_input() == old(self).spec_input(),
            final(self).spec_vault_exists() == old(self).spec_vault_exists(),
    {
        self.error_message = Some(msg);
    }

    /// Wipe the typed password and the error line.
    pub fn clear(&mut self)
        ensures
            final(self).spec_input().len() == 0,
            final(self).spec_error() is None,
            final(self).spec_vault_exists() == old(self).spec_vault_exists(),
    {
        self.password_input = String::new();
        self.error_message = None;
    }

    /// Tell the screen whether a vault file exists, switching it between the
    /// create and unlock prompts.
    pub fn set_vault_exists(&mut self, exists: bool)
        ensures
            final(self).spec_vault_exists() == exists,
            final(self).spec_input() == old(self).spec_input(),
            final(self).spec_error() == old(self).spec_error(),
    {
        self.vault_exists = exists;
    }

    /// Type one character; typing clears the error line.
    pub fn push_char(&mut self, c: char)
        ensures
            final(self).spec_input() == old(self).spec_input().push(c),
            final(self).spec_error() is None,
            final(self).spec_vault_exists() == old(self).spec_vault_exists(),
    {
        self.password_input.push(c);
        self.error_message = None;
    }

    /// Erase the last typed character, if any; erasing clears the error line.
    pub fn pop_char(&mut self)
        ensures
            final(self).spec_input() == (if old(self).spec_input().len() > 0 {
                old(self).spec_input().drop_last()
            } else {
                old(self).spec_input()
            }),
            final(self).spec_error() is None,
            final(self).spec_vault_exists() == old(self).spec_vault_exists(),
    {
        pop_string_char(&mut self.password_input);
        self.error_message = None;
    }

    /// Submit the typed password: an empty input only sets an error; a
    /// non-empty one asks to unlock when a vault exists and to create one
    /// otherwise, clearing the error line.
    pub fn submit(&mut self) -> (r: LockSubmit)
        ensures
            final(self).spec_vault_exists() == old(self).spec_vault_exists(),
            final(self).spec_input() == old(self).spec_input(),
            old(self).spec_input().len() == 0 ==> r is EmptyPassword && final(self).spec_error() is Some,
            old(self).spec_input().len() > 0 ==> final(self).spec_error() is None && (if old(self).spec_vault_exists() {
                r matches LockSubmit::UnlockVault(pw) && pw@ == old(self).spec_input()
            } else {
                r matches LockSubmit::CreateVault(pw) && pw@ == old(self).spec_input()
            }),
    {
        if self.password_input.as_str().is_empty() {
            self.error_message = Some("Password cannot be empty".to_owned());
            LockSubmit::EmptyPassword
        } else {
            let pw = self.password_input.clone();
            self.error_message = None;
            if self.vault_exists {
                LockSubmit::UnlockVault(pw)
            } else {
                LockSubmit::CreateVault(pw)
            }
        }
    }

    /// How many characters have been typed (for the masked prompt).
    pub fn input_len(&self) -> (r: usize)
        ensures
            r == self.spec_input().len(),
    {
        self.password_input.as_str().unicode_len()
    }

    /// The error line, if one is showing.
    pub fn error_message(&self) -> (r: &Option<String>)
        ensures
            *r == self.spec_error(),
    {
        &self.error_message
    }

    /// Whether the screen offers to unlock an existing vault.
    pub fn vault_exists(&self) -> (r: bool)
        ensures
            r == self.spec_vault_exists(),
    {
        self.vault_exists
    }
}

/// Remove the last character of a string, as the backspace key does.
fn pop_string_char(s: &mut String)
    ensures
        final(s)@ == (if old(s)@.len() > 0 {
            old(s)@.drop_last()
        } else {
            old(s)@
        }),
{
    let chars = string_to_chars(s);
    let mut out = String::new();
    let mut k: usize = 0;
    if chars.len() == 0 {
        proof {
            assert(out@ =~= s@);
        }
        *s = out;
        return ;
    }
    let last = chars.len() - 1;
    while k < last
        invariant
            k <= last,
            last == chars@.len() - 1,
            out@ == chars@.take(k as int),
        decreases last - k,
    {
        out.push(chars[k]);
        proof {
            assert(out@ =~= chars@.take(k + 1 as int));
        }
        k += 1;
    }
    proof {
        assert(chars@.take(last as int) =~= chars@.drop_last());
    }
    let ghost sview = s@;
    *s = out;
    proof {
        assert(s@ =~= sview.drop_last());
    }
}

/// The characters of a string, in order.
fn string_to_chars(s: &String) -> (r: Vec<char>)
    ensures
        r@ == s@,
{
    let st = s.as_str();
    let n = st.unicode_len();
    let mut r: Vec<char> = Vec::new();
    let mut k: usize = 0;
    while k < n
        invariant
            k <= n,
            n == st@.len(),
            st@ == s@,
            r@ == st@.take(k as int),
        decreases n - k,
    {
        r.push(st.get_char(k));
        proof {
            assert(r@ =~= st@.take(k + 1 as int));
        }
        k += 1;
    }
    proof {
        assert(st@.take(n as int) =~= st@);
    }
    r
}

} // verus!
