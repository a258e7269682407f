//! Modal forms, the version picker and the actions they trigger.

use vstd::prelude::*;

use crate::text::{
    contains_chars, contains_seq, decimal, lower_seq, parse_u32, parse_u32_spec, str_chars,
    string_from_chars, string_from_str, to_lower_chars, trim, trim_chars, u32_to_string,
};

verus! {

/// `std::path::PathBuf`, carried opaquely by [`ConfirmAction::DeleteMod`].
#[verifier::external_type_specification]
#[verifier::external_body]
pub struct ExPathBuf(std::path::PathBuf);

/// `PathBuf::clone` (used by the derived `Clone` of [`ConfirmAction`])
/// returns a duplicate of the path.
pub assume_specification[ <std::path::PathBuf as Clone>::clone ](p: &std::path::PathBuf) -> (r: std::path::PathBuf)
    ensures
        r == *p,
;

/// The kind of value a form field holds.
#[derive(Debug, Clone, PartialEq)]
pub enum FieldKind {
    Text,
    Number,
    Choice { options: Vec<String>, selected: usize },
    Bool(bool),
}

/// A single labelled form field.
#[derive(Debug, Clone)]
pub struct FormField {
    pub label: String,
    pub value: String,
    pub kind: FieldKind,
    pub hint: String,
}

impl FormField {
    /// Whether typed characters go into this field.
    pub open spec fn is_editable(&self) -> bool {
        self.kind is Text || self.kind is Number
    }

    /// Whether typed characters go into this field.
    pub fn editable(&self) -> (r: bool)
        ensures
            r == self.is_editable(),
    {
        match self.kind {
            FieldKind::Text | FieldKind::Number => true,
            _ => false,
        }
    }
}

/// What submitting a form should do.
#[derive(Debug, Clone, PartialEq, Eq, Structural)]
pub enum FormAction {
    CreateInstance,
    EditInstanceSettings,
    ImportModpack,
    OfflineLogin,
    SetJavaPath,
    EditLauncherSettings,
}

/// A modal multi-field form.
#[derive(Debug, Clone)]
pub struct Form {
    pub title: String,
    pub fields: Vec<FormField>,
    pub active: usize,
    pub action: FormAction,
}

/// `"yes"` or `"no"`.
pub open spec fn yes_no(b: bool) -> Seq<char> {
    if b {
        seq!['y', 'e', 's']
    } else {
        seq!['n', 'o']
    }
}

fn yes_no_string(b: bool) -> (r: String)
    ensures
        r@ == yes_no(b),
{
    let v = if b {
        vec!['y', 'e', 's']
    } else {
        vec!['n', 'o']
    };
    assert(v@ =~= yes_no(b));
    string_from_chars(v.as_slice())
}

/// Index of the first field labelled `label`.
pub open spec fn find_label(fields: Seq<FormField>, label: Seq<char>) -> Option<int>
    decreases fields.len(),
{
    if fields.len() == 0 {
        None
    } else {
        match find_label(fields.drop_last(), label) {
            Some(i) => Some(i),
            None => if fields.last().label@ == label {
                Some(fields.len() - 1)
            } else {
                None
            },
        }
    }
}

proof fn lemma_find_label(fields: Seq<FormField>, label: Seq<char>)
    ensures
        find_label(fields, label) matches Some(i) ==> 0 <= i < fields.len() && fields[i].label@
            == label && forall|j: int| 0 <= j < i ==> fields[j].label@ != label,
        find_label(fields, label) is None ==> forall|j: int|
            0 <= j < fields.len() ==> fields[j].label@ != label,
    decreases fields.len(),
{
    if fields.len() > 0 {
        lemma_find_label(fields.drop_last(), label);
        assert forall|j: int| 0 <= j < fields.len() - 1 implies fields[j] == fields.drop_last()[j] by {}
    }
}

/// The form after a call that changed only its fields.
pub open spec fn same_frame(a: Form, b: Form) -> bool {
    a.title == b.title && a.active == b.active && a.action == b.action
}

/// `b`'s fields are `a`'s with one more at the end.
pub open spec fn one_more(a: Form, b: Form) -> bool {
    &&& same_frame(a, b)
    &&& b.fields@.len() == a.fields@.len() + 1
    &&& b.fields@.take(a.fields@.len() as int) == a.fields@
}

/// The last field of a non-empty form.
pub open spec fn last_field(f: Form) -> FormField {
    f.fields@.last()
}

/// `i + 1`, wrapped into `0..n`.
pub open spec fn wrap_next(i: int, n: int) -> int {
    (i + 1) % n
}

/// `i - 1`, wrapped into `0..n` for `i` in `0..n`.
pub open spec fn wrap_prev(i: int, n: int) -> int {
    (i + n - 1) % n
}

/// The form with the next (`forward`) or previous field active; a form
/// without fields stays as it is.
pub open spec fn step_field_spec(f: Form, forward: bool) -> Form {
    let n = f.fields@.len() as int;
    if n == 0 {
        f
    } else {
        Form {
            active: (if forward {
                wrap_next(f.active as int, n)
            } else {
                wrap_prev(f.active as int, n)
            }) as usize,
            ..f
        }
    }
}

/// The active field exists and accepts typed characters.
pub open spec fn active_editable(f: Form) -> bool {
    f.active < f.fields@.len() && f.fields@[f.active as int].is_editable()
}

/// `after` is `before` with only the active field's text changed to `value`.
pub open spec fn with_active_value(before: Form, after: Form, value: Seq<char>) -> bool {
    let a = before.active as int;
    let f = before.fields@[a];
    let g = after.fields@[a];
    &&& same_frame(before, after)
    &&& after.fields@.len() == before.fields@.len()
    &&& forall|k: int|
        0 <= k < before.fields@.len() && k != a ==> after.fields@[k] == before.fields@[k]
    &&& g.value@ == value
    &&& g.label == f.label && g.kind == f.kind && g.hint == f.hint
}

/// What typing `c` does: it is appended to the active editable field.
pub open spec fn input_char_post(before: Form, after: Form, c: char) -> bool {
    if active_editable(before) {
        with_active_value(before, after, before.fields@[before.active as int].value@.push(c))
    } else {
        after == before
    }
}

/// What backspace does: the active editable field loses its last character.
pub open spec fn backspace_post(before: Form, after: Form) -> bool {
    if active_editable(before) {
        let v = before.fields@[before.active as int].value@;
        with_active_value(
            before,
            after,
            if v.len() > 0 {
                v.drop_last()
            } else {
                v
            },
        )
    } else {
        after == before
    }
}

/// What cycling does: a choice moves to the next (or previous) option and
/// shows it, a yes/no field flips, any other field is left alone.
pub open spec fn cycle_post(before: Form, after: Form, forward: bool) -> bool {
    &&& same_frame(before, after)
    &&& after.fields@.len() == before.fields@.len()
    &&& forall|k: int|
        0 <= k < before.fields@.len() && k != before.active ==> after.fields@[k]
            == before.fields@[k]
    &&& before.active < before.fields@.len() ==> {
        let a = before.active as int;
        let f = before.fields@[a];
        let g = after.fields@[a];
        &&& g.label == f.label && g.hint == f.hint
        &&& match f.kind {
            FieldKind::Choice { options, selected } => if options@.len() == 0 {
                g == f
            } else {
                let n = options@.len() as int;
                let next = if forward {
                    wrap_next(selected as int, n)
                } else {
                    wrap_prev(selected as int, n)
                };
                &&& g.kind == (FieldKind::Choice { options, selected: next as usize })
                &&& g.value@ == options@[next]@
            },
            FieldKind::Bool(b) => g.kind == FieldKind::Bool(!b) && g.value@ == yes_no(!b),
            _ => g == f,
        }
    }
}

/// The value of the first field labelled `label`, read as a number.
pub open spec fn number_value_spec(f: Form, label: Seq<char>) -> Option<u32> {
    match find_label(f.fields@, label) {
        Some(i) => parse_u32_spec(trim(f.fields@[i].value@)),
        None => None,
    }
}

impl Form {
    /// An empty form.
    pub fn new(title: &str, action: FormAction) -> (r: Self)
        ensures
            r.title@ == title@,
            r.fields@.len() == 0,
            r.active == 0,
            r.action == action,
    {
        Form { title: string_from_str(title), fields: Vec::new(), active: 0, action }
    }

    fn push_field(self, label: &str, value: String, kind: FieldKind) -> (r: Self)
        ensures
            one_more(self, r),
            last_field(r).label@ == label@,
            last_field(r).value == value,
            last_field(r).kind == kind,
            last_field(r).hint@.len() == 0,
    {
        let mut s = self;
        let ghost old_fields = s.fields@;
        s.fields.push(FormField { label: string_from_str(label), value, kind, hint: String::new() });
        assert(s.fields@.take(old_fields.len() as int) =~= old_fields);
        s
    }

    /// Append a text field.
    pub fn push_text(self, label: &str, value: &str) -> (r: Self)
        ensures
            one_more(self, r),
            last_field(r).label@ == label@,
            last_field(r).value@ == value@,
            last_field(r).kind is Text,
            last_field(r).hint@.len() == 0,
    {
        self.push_field(label, string_from_str(value), FieldKind::Text)
    }

    /// Append a number field showing `value` in decimal.
    pub fn push_number(self, label: &str, value: u32) -> (r: Self)
        ensures
            one_more(self, r),
            last_field(r).label@ == label@,
            last_field(r).value@ == decimal(value as nat),
            last_field(r).kind is Number,
            last_field(r).hint@.len() == 0,
    {
        self.push_field(label, u32_to_string(value), FieldKind::Number)
    }

    /// Append a choice field; it shows the selected option, or nothing when
    /// `selected` is out of range.
    pub fn push_choice(self, label: &str, options: Vec<String>, selected: usize) -> (r: Self)
        ensures
            one_more(self, r),
            last_field(r).label@ == label@,
            last_field(r).value@ == (if selected < options@.len() {
                options@[selected as int]@
            } else {
                Seq::<char>::empty()
            }),
            last_field(r).kind == (FieldKind::Choice { options, selected }),
            last_field(r).hint@.len() == 0,
    {
        let value = if selected < options.len() {
            options[selected].clone()
        } else {
            String::new()
        };
        self.push_field(label, value, FieldKind::Choice { options, selected })
    }

    /// Append a yes/no field.
    pub fn push_bool(self, label: &str, value: bool) -> (r: Self)
        ensures
            one_more(self, r),
            last_field(r).label@ == label@,
            last_field(r).value@ == yes_no(value),
            last_field(r).kind == FieldKind::Bool(value),
            last_field(r).hint@.len() == 0,
    {
        self.push_field(label, yes_no_string(value), FieldKind::Bool(value))
    }

    /// Set the hint of the last field, if there is one.
    pub fn with_hint(self, hint: &str) -> (r: Self)
        ensures
            same_frame(self, r),
            r.fields@.len() == self.fields@.len(),
            self.fields@.len() == 0 ==> r.fields@ == self.fields@,
            self.fields@.len() > 0 ==> {
                &&& r.fields@.drop_last() == self.fields@.drop_last()
                &&& r.fields@.last().hint@ == hint@
                &&& r.fields@.last().label == self.fields@.last().label
                &&& r.fields@.last().value == self.fields@.last().value
                &&& r.fields@.last().kind == self.fields@.last().kind
            },
    {
        let mut s = self;
        let n = s.fields.len();
        if n > 0 {
            let ghost before = s.fields@;
            let mut f = s.fields.pop().unwrap();
            f.hint = string_from_str(hint);
            s.fields.push(f);
            assert(s.fields@.drop_last() =~= before.drop_last());
        }
        s
    }

    /// The first field labelled `label`.
    pub fn field(&self, label: &str) -> (r: Option<&FormField>)
        ensures
            r matches Some(f) ==> find_label(self.fields@, label@) matches Some(i) && *f
                == self.fields@[i],
            r is None ==> find_label(self.fields@, label@) is None,
    {
        proof {
            lemma_find_label(self.fields@, label@);
        }
        let want = str_chars(label);
        let mut k: usize = 0;
        while k < self.fields.len()
            invariant
                0 <= k <= self.fields@.len(),
                want@ == label@,
                forall|j: int| 0 <= j < k ==> self.fields@[j].label@ != label@,
            decreases self.fields@.len() - k,
        {
            let have = str_chars(self.fields[k].label.as_str());
            if crate::text::chars_eq(have.as_slice(), want.as_slice()) {
                proof {
                    lemma_find_label(self.fields@, label@);
                    if let Some(i) = find_label(self.fields@, label@) {
                        if i < k {
                        } else if i > k {
                        }
                    }
                }
                return Some(&self.fields[k]);
            }
            k = k + 1;
        }
        None
    }

    /// The value of the first field labelled `label`.
    pub fn text_value(&self, label: &str) -> (r: Option<&str>)
        ensures
            r matches Some(v) ==> find_label(self.fields@, label@) matches Some(i) && v@
                == self.fields@[i].value@,
            r is None ==> find_label(self.fields@, label@) is None,
    {
        match self.field(label) {
            Some(f) => Some(f.value.as_str()),
            None => None,
        }
    }

    /// The value of the first field labelled `label`, read as a `u32`
    /// after trimming.
    pub fn number_value(&self, label: &str) -> (r: Option<u32>)
        ensures
            r == number_value_spec(*self, label@),
    {
        match self.field(label) {
            Some(f) => {
                let v = str_chars(f.value.as_str());
                let t = trim_chars(v.as_slice());
                parse_u32(t.as_slice())
            },
            None => None,
        }
    }

    /// The state of the first field labelled `label`, if it is a yes/no field.
    pub fn bool_value(&self, label: &str) -> (r: Option<bool>)
        ensures
            r == (match find_label(self.fields@, label@) {
                Some(i) => match self.fields@[i].kind {
                    FieldKind::Bool(b) => Some(b),
                    _ => None,
                },
                None => None,
            }),
    {
        match self.field(label) {
            Some(f) => match f.kind {
                FieldKind::Bool(v) => Some(v),
                _ => None,
            },
            None => None,
        }
    }

    /// The shown value of the first field labelled `label`.
    pub fn choice_value(&self, label: &str) -> (r: Option<&str>)
        ensures
            r matches Some(v) ==> find_label(self.fields@, label@) matches Some(i) && v@
                == self.fields@[i].value@,
            r is None ==> find_label(self.fields@, label@) is None,
    {
        self.text_value(label)
    }

    /// Move to the next field, wrapping around.
    pub fn next_field(&mut self)
        ensures
            *final(self) == step_field_spec(*old(self), true),
    {
        if self.fields.len() > 0 {
            self.active = wrap_step(self.active, self.fields.len(), true);
        }
    }

    /// Move to the previous field, wrapping around.
    pub fn prev_field(&mut self)
        ensures
            *final(self) == step_field_spec(*old(self), false),
    {
        if self.fields.len() > 0 {
            self.active = wrap_step(self.active, self.fields.len(), false);
        }
    }

    /// Insert a character into the active editable field.
    pub fn input_char(&mut self, c: char)
        ensures
            input_char_post(*old(self), *final(self), c),
    {
        let a = self.active;
        if a < self.fields.len() && self.fields[a].editable() {
            self.fields[a].value.push(c);
        }
    }

    /// Remove the last character from the active editable field.
    pub fn backspace(&mut self)
        ensures
            backspace_post(*old(self), *final(self)),
    {
        let a = self.active;
        if a < self.fields.len() && self.fields[a].editable() {
            self.fields[a].value.pop();
        }
    }

    /// Cycle a choice or toggle a boolean on the active field.
    pub fn cycle(&mut self, forward: bool)
        ensures
            cycle_post(*old(self), *final(self), forward),
    {
        let a = self.active;
        if a >= self.fields.len() {
            return;
        }
        let ghost before = self.fields@;
        let mut f = self.fields.remove(a);
        let mut changed = false;
        match &mut f.kind {
            FieldKind::Choice { options, selected } => {
                if options.len() > 0 {
                    *selected = wrap_step(*selected, options.len(), forward);
                    f.value = options[*selected].clone();
                }
            },
            FieldKind::Bool(value) => {
                *value = !*value;
                f.value = yes_no_string(*value);
            },
            _ => {},
        }
        self.fields.insert(a, f);
        assert forall|k: int| 0 <= k < before.len() && k != a implies self.fields@[k] == before[k] by {
            if k < a {
            } else {
            }
        }
    }
}

/// What a text prompt's submitted value should do.
#[derive(Debug, Clone, PartialEq, Eq, Structural)]
pub enum TextAction {
    SearchModrinth,
    SearchMods,
    SearchLogs,
    ImportPath,
    JavaPath,
    CustomJvmArgs,
    CustomGameArgs,
    SkinUrl,
    RenameInstance,
    /// Nothing to do.
    NoAction,
}

/// What a confirmation dialog should do on accept.
#[derive(Debug, Clone, PartialEq, Eq)]
pub enum ConfirmAction {
    DeleteInstance(String),
    DeleteMod(std::path::PathBuf),
    DeleteAccount(String),
    Quit,
    /// Nothing to do.
    NoAction,
}

/// What a version picker's chosen value applies to.
#[derive(Debug, Clone, Copy, PartialEq, Eq, Structural)]
pub enum PickerTarget {
    /// Create wizard: the Minecraft game version.
    WizardGame,
    /// Create wizard: the modloader version.
    WizardLoader,
    /// Versions page: change the selected build's game version.
    ChangeGameVersion,
}

/// A searchable, keyboard-driven list of versions.
#[derive(Debug, Clone)]
pub struct VersionPicker {
    pub title: String,
    pub query: String,
    pub items: Vec<String>,
    pub filtered: Vec<usize>,
    pub selected: usize,
    pub target: PickerTarget,
}

/// An item is shown for a query: the query is empty, or it occurs in the
/// item ignoring ASCII case.
pub open spec fn matches_query(item: Seq<char>, query: Seq<char>) -> bool {
    query.len() == 0 || contains_seq(lower_seq(item), lower_seq(query))
}

/// Indices of `items[..n]` that match the query, in order.
pub open spec fn filtered_upto(items: Seq<Seq<char>>, query: Seq<char>, n: int) -> Seq<usize>
    decreases n,
{
    if n <= 0 {
        Seq::empty()
    } else if matches_query(items[n - 1], query) {
        filtered_upto(items, query, n - 1).push((n - 1) as usize)
    } else {
        filtered_upto(items, query, n - 1)
    }
}

/// The views of a vector of strings.
pub open spec fn sv(v: Seq<String>) -> Seq<Seq<char>> {
    v.map_values(|s: String| s@)
}

/// Indices of all items that match the query, in order.
pub open spec fn filter_spec(items: Seq<String>, query: Seq<char>) -> Seq<usize> {
    filtered_upto(sv(items), query, items.len() as int)
}

/// All indices `0..n`.
pub open spec fn all_indices(n: nat) -> Seq<usize> {
    Seq::new(n, |i: int| i as usize)
}

/// The picker with its query replaced by `query` and the list filtered
/// anew: the selection goes back to the first match.
pub open spec fn refiltered(before: VersionPicker, after: VersionPicker, query: Seq<char>) -> bool {
    &&& after.query@ == query
    &&& after.filtered@ == filter_spec(before.items@, query)
    &&& after.selected == 0
    &&& after.items == before.items
    &&& after.title == before.title
    &&& after.target == before.target
}

/// The picker with its selection moved by `delta` within the filtered list.
pub open spec fn picker_move_spec(p: VersionPicker, delta: int) -> VersionPicker {
    if p.filtered@.len() == 0 {
        p
    } else {
        VersionPicker {
            selected: clamp(p.selected + delta, 0, p.filtered@.len() - 1) as usize,
            ..p
        }
    }
}

/// Row `cur` moved by `delta` and kept within `0..len`, computed without
/// leaving the range of `usize`.
pub(crate) fn clamp_step(cur: usize, len: usize, delta: i32) -> (r: usize)
    requires
        len > 0,
    ensures
        r == clamp(cur + delta, 0, len - 1),
{
    let hi = len - 1;
    if delta >= 0 {
        let d = delta as usize;
        if cur >= hi || hi - cur <= d {
            hi
        } else {
            cur + d
        }
    } else {
        let d = (0i64 - delta as i64) as usize;
        if cur <= d {
            0
        } else if cur - d > hi {
            hi
        } else {
            cur - d
        }
    }
}

impl VersionPicker {
    /// A picker over `items` with an empty query: every item is listed.
    pub fn new(title: &str, items: Vec<String>, target: PickerTarget) -> (r: Self)
        ensures
            r.title@ == title@,
            r.query@.len() == 0,
            r.items == items,
            r.filtered@ == all_indices(items@.len()),
            r.selected == 0,
            r.target == target,
    {
        let mut filtered: Vec<usize> = Vec::new();
        let mut k: usize = 0;
        while k < items.len()
            invariant
                0 <= k <= items@.len(),
                filtered@ == all_indices(k as nat),
            decreases items@.len() - k,
        {
            filtered.push(k);
            k = k + 1;
            assert(filtered@ =~= all_indices(k as nat));
        }
        VersionPicker { title: string_from_str(title), query: String::new(), items, filtered, selected: 0, target }
    }

    /// Recompute the filtered indices from the current query.
    pub fn refilter(&mut self)
        ensures
            refiltered(*old(self), *final(self), old(self).query@),
            final(self).query == old(self).query,
    {
        let q = str_chars(self.query.as_str());
        let lq = to_lower_chars(q.as_slice());
        let mut filtered: Vec<usize> = Vec::new();
        let mut k: usize = 0;
        let ghost items = sv(self.items@);
        while k < self.items.len()
            invariant
                0 <= k <= self.items@.len(),
                items == sv(self.items@),
                q@ == self.query@,
                lq@ == lower_seq(q@),
                filtered@ == filtered_upto(items, self.query@, k as int),
            decreases self.items@.len() - k,
        {
            let it = str_chars(self.items[k].as_str());
            let li = to_lower_chars(it.as_slice());
            assert(items[k as int] == it@);
            if lq.len() == 0 || contains_chars(li.as_slice(), lq.as_slice()) {
                filtered.push(k);
            }
            k = k + 1;
        }
        self.filtered = filtered;
        self.selected = 0;
    }

    /// The item under the selection, if any.
    pub fn selected_value(&self) -> (r: Option<&str>)
        ensures
            r matches Some(v) ==> self.selected < self.filtered@.len() && self.filtered@[self.selected as int]
                < self.items@.len() && v@ == self.items@[self.filtered@[self.selected as int] as int]@,
            r is None ==> !(self.selected < self.filtered@.len() && self.filtered@[self.selected as int]
                < self.items@.len()),
    {
        if self.selected < self.filtered.len() {
            let idx = self.filtered[self.selected];
            if idx < self.items.len() {
                return Some(self.items[idx].as_str());
            }
        }
        None
    }

    /// Move the selection by `delta`, staying within the filtered list.
    pub fn move_selection(&mut self, delta: i32)
        ensures
            *final(self) == picker_move_spec(*old(self), delta as int),
    {
        if self.filtered.len() > 0 {
            self.selected = clamp_step(self.selected, self.filtered.len(), delta);
        }
    }
}

/// `v` limited to `lo..=hi`.
pub open spec fn clamp(v: int, lo: int, hi: int) -> int {
    if v < lo {
        lo
    } else if v > hi {
        hi
    } else {
        v
    }
}

/// Index of the first label equal to `label` ignoring ASCII case.
pub open spec fn find_label_ci(labels: Seq<Seq<char>>, label: Seq<char>) -> Option<int>
    decreases labels.len(),
{
    if labels.len() == 0 {
        None
    } else {
        match find_label_ci(labels.drop_last(), label) {
            Some(i) => Some(i),
            None => if lower_seq(labels.last()) == lower_seq(label) {
                Some(labels.len() - 1)
            } else {
                None
            },
        }
    }
}

/// Parse an option label back into its index among `labels` (compared
/// without regard to ASCII case), falling back to `default` when no label
/// matches. This is how a loader or GC preset is read back from a form.
pub fn parse_label(labels: &Vec<String>, label: &str, default: usize) -> (r: usize)
    ensures
        r == (match find_label_ci(sv(labels@), label@) {
            Some(i) => i as usize,
            None => default,
        }),
{
    let want = to_lower_chars(str_chars(label).as_slice());
    let ghost ls = sv(labels@);
    let mut k: usize = 0;
    while k < labels.len()
        invariant
            0 <= k <= labels@.len(),
            ls == sv(labels@),
            want@ == lower_seq(label@),
            find_label_ci(ls.take(k as int), label@) is None,
        decreases labels@.len() - k,
    {
        let have = to_lower_chars(str_chars(labels[k].as_str()).as_slice());
        assert(ls.take(k + 1).drop_last() =~= ls.take(k as int));
        assert(ls.take(k + 1).last() == labels@[k as int]@);
        if crate::text::chars_eq(have.as_slice(), want.as_slice()) {
            proof {
                lemma_find_ci_prefix(ls, label@, k as int + 1);
            }
            return k;
        }
        k = k + 1;
    }
    assert(ls.take(labels@.len() as int) =~= ls);
    default
}

proof fn lemma_find_ci_prefix(ls: Seq<Seq<char>>, label: Seq<char>, k: int)
    requires
        0 < k <= ls.len(),
        find_label_ci(ls.take(k), label) == Some(k - 1),
    ensures
        find_label_ci(ls, label) == Some(k - 1),
    decreases ls.len() - k,
{
    if k < ls.len() {
        assert(ls.drop_last().take(k) =~= ls.take(k));
        lemma_find_ci_prefix(ls.drop_last(), label, k);
    } else {
        assert(ls.take(k) =~= ls);
    }
}


// ---------------------------------------------------------------------------
// Laws of forms and pickers
// ---------------------------------------------------------------------------

proof fn lemma_wrap_one(a: int, n: int)
    requires
        0 <= a < n,
    ensures
        wrap_next(a, n) == (if a + 1 < n {
            a + 1
        } else {
            0
        }),
        wrap_prev(a, n) == (if a > 0 {
            a - 1
        } else {
            n - 1
        }),
{
    if a + 1 < n {
        vstd::arithmetic::div_mod::lemma_small_mod((a + 1) as nat, n as nat);
    } else {
        vstd::arithmetic::div_mod::lemma_mod_self_0(n);
    }
    if a > 0 {
        vstd::arithmetic::div_mod::lemma_mod_add_multiples_vanish(a - 1, n);
        vstd::arithmetic::div_mod::lemma_small_mod((a - 1) as nat, n as nat);
    } else {
        vstd::arithmetic::div_mod::lemma_small_mod((n - 1) as nat, n as nat);
    }
}

/// Stepping forward and back inside `0..n` are inverse to each other.
pub proof fn lemma_wrap(a: int, n: int)
    requires
        0 <= a < n,
    ensures
        0 <= wrap_next(a, n) < n,
        0 <= wrap_prev(a, n) < n,
        wrap_prev(wrap_next(a, n), n) == a,
        wrap_next(wrap_prev(a, n), n) == a,
{
    lemma_wrap_one(a, n);
    lemma_wrap_one(wrap_next(a, n), n);
    lemma_wrap_one(wrap_prev(a, n), n);
}

/// A step never depends on how far `a` lies past `n`: only `a % n` counts.
proof fn lemma_wrap_mod(a: int, n: int)
    requires
        0 <= a,
        0 < n,
    ensures
        wrap_next(a, n) == wrap_next(a % n, n),
        wrap_prev(a, n) == wrap_prev(a % n, n),
{
    vstd::arithmetic::div_mod::lemma_add_mod_noop(a, 1, n);
    vstd::arithmetic::div_mod::lemma_add_mod_noop(a % n, 1, n);
    vstd::arithmetic::div_mod::lemma_mod_twice(a, n);
    vstd::arithmetic::div_mod::lemma_add_mod_noop(a, n - 1, n);
    vstd::arithmetic::div_mod::lemma_add_mod_noop(a % n, n - 1, n);
}

/// One step forward or back through `n` slots from `a`, wrapping around,
/// computed without leaving the range of `usize`.
fn wrap_step(a: usize, n: usize, forward: bool) -> (r: usize)
    requires
        n > 0,
    ensures
        r == (if forward {
            wrap_next(a as int, n as int)
        } else {
            wrap_prev(a as int, n as int)
        }),
        r < n,
{
    let m = a % n;
    proof {
        lemma_wrap_mod(a as int, n as int);
        lemma_wrap_one(m as int, n as int);
    }
    if forward {
        if m + 1 == n {
            0
        } else {
            m + 1
        }
    } else if m == 0 {
        n - 1
    } else {
        m - 1
    }
}

/// Moving to the next field and back (or back and then on) returns to the
/// field one started from; the active field always stays on a field.
pub proof fn law_field_nav_inverse(f: Form, forward: bool)
    requires
        f.active < f.fields@.len(),
    ensures
        step_field_spec(step_field_spec(f, forward), !forward) == f,
        step_field_spec(f, forward).active < f.fields@.len(),
{
    assert(f.fields.len() == f.fields@.len());
    lemma_wrap(f.active as int, f.fields@.len() as int);
    let g = step_field_spec(f, forward);
    let h = step_field_spec(g, !forward);
    assert(h.active == f.active);
    assert(h == f);
}

/// Typing a character and erasing it leaves the field's text as it was, and
/// every other field untouched.
pub proof fn law_type_then_erase(before: Form, mid: Form, after: Form, c: char)
    requires
        input_char_post(before, mid, c),
        backspace_post(mid, after),
    ensures
        same_frame(before, after),
        after.fields@.len() == before.fields@.len(),
        forall|k: int|
            0 <= k < before.fields@.len() && k != before.active ==> after.fields@[k]
                == before.fields@[k],
        !active_editable(before) ==> after == before,
        active_editable(before) ==> {
            let a = before.active as int;
            &&& after.fields@[a].value@ == before.fields@[a].value@
            &&& after.fields@[a].label == before.fields@[a].label
            &&& after.fields@[a].kind == before.fields@[a].kind
            &&& after.fields@[a].hint == before.fields@[a].hint
        },
{
    if active_editable(before) {
        let a = before.active as int;
        assert(mid.fields@[a].kind == before.fields@[a].kind);
        assert(active_editable(mid));
        assert(before.fields@[a].value@.push(c).drop_last() =~= before.fields@[a].value@);
    }
}

/// Toggling a yes/no field twice restores its state and shows it.
pub proof fn law_bool_toggle_twice(
    before: Form,
    mid: Form,
    after: Form,
    first: bool,
    second: bool,
)
    requires
        cycle_post(before, mid, first),
        cycle_post(mid, after, second),
        before.active < before.fields@.len(),
        before.fields@[before.active as int].kind is Bool,
    ensures
        after.fields@[before.active as int].kind == before.fields@[before.active as int].kind,
        after.fields@[before.active as int].value@ == yes_no(
            before.fields@[before.active as int].kind->Bool_0,
        ),
        same_frame(before, after),
        forall|k: int|
            0 <= k < before.fields@.len() && k != before.active ==> after.fields@[k]
                == before.fields@[k],
{
}

/// Cycling a choice forward and then back returns to the same option and
/// shows it.
pub proof fn law_choice_cycle_inverse(before: Form, mid: Form, after: Form, forward: bool)
    requires
        cycle_post(before, mid, forward),
        cycle_post(mid, after, !forward),
        before.active < before.fields@.len(),
        before.fields@[before.active as int].kind matches FieldKind::Choice { options, selected }
            && selected < options@.len(),
    ensures
        after.fields@[before.active as int].kind == before.fields@[before.active as int].kind,
        ({
            let k = before.fields@[before.active as int].kind;
            after.fields@[before.active as int].value@ == k->options@[k->selected as int]@
        }),
        same_frame(before, after),
{
    let a = before.active as int;
    let k = before.fields@[a].kind;
    let options = k->options;
    assert(options.len() == options@.len());
    lemma_wrap(k->selected as int, options@.len() as int);
    assert(mid.active == before.active);
    assert(mid.fields@[a].label == before.fields@[a].label);
}

/// A number written into a new field reads back as the same number.
pub proof fn law_number_round_trip(before: Form, after: Form, label: Seq<char>, v: u32)
    requires
        one_more(before, after),
        last_field(after).label@ == label,
        last_field(after).value@ == decimal(v as nat),
        find_label(before.fields@, label) is None,
    ensures
        number_value_spec(after, label) == Some(v),
{
    assert(after.fields@.drop_last() =~= before.fields@);
    assert(find_label(after.fields@, label) == Some(after.fields@.len() - 1));
    crate::text::lemma_decimal(v as nat);
    crate::text::lemma_trim_digits(decimal(v as nat));
    crate::text::lemma_parse_decimal(v);
}

proof fn lemma_filtered_upto(items: Seq<Seq<char>>, query: Seq<char>, n: int)
    requires
        0 <= n <= items.len(),
        items.len() <= usize::MAX,
    ensures
        forall|j: int|
            0 <= j < filtered_upto(items, query, n).len() ==> {
                let i = #[trigger] filtered_upto(items, query, n)[j];
                &&& i < n
                &&& matches_query(items[i as int], query)
            },
        forall|j: int, k: int|
            0 <= j < k < filtered_upto(items, query, n).len() ==> filtered_upto(items, query, n)[j]
                < filtered_upto(items, query, n)[k],
        forall|i: int|
            0 <= i < n && matches_query(items[i], query) ==> filtered_upto(items, query, n).contains(
                i as usize,
            ),
    decreases n,
{
    if n > 0 {
        lemma_filtered_upto(items, query, n - 1);
        let prev = filtered_upto(items, query, n - 1);
        if matches_query(items[n - 1], query) {
            let cur = prev.push((n - 1) as usize);
            assert(filtered_upto(items, query, n) == cur);
            assert forall|i: int| 0 <= i < n && matches_query(items[i], query) implies cur.contains(
                i as usize,
            ) by {
                if i < n - 1 {
                    let j = choose|j: int| 0 <= j < prev.len() && prev[j] == i as usize;
                    assert(cur[j] == i as usize);
                } else {
                    assert(cur[prev.len() as int] == i as usize);
                }
            }
        }
    }
}

/// The picker lists exactly the items matching its query, each once, in
/// list order.
pub proof fn law_filter_exact(items: Seq<String>, query: Seq<char>)
    requires
        items.len() <= usize::MAX,
    ensures
        forall|j: int|
            0 <= j < filter_spec(items, query).len() ==> {
                let i = #[trigger] filter_spec(items, query)[j];
                &&& i < items.len()
                &&& matches_query(items[i as int]@, query)
            },
        forall|j: int, k: int|
            0 <= j < k < filter_spec(items, query).len() ==> filter_spec(items, query)[j]
                < filter_spec(items, query)[k],
        forall|i: int|
            0 <= i < items.len() && matches_query(items[i]@, query) ==> filter_spec(
                items,
                query,
            ).contains(i as usize),
{
    let s = sv(items);
    lemma_filtered_upto(s, query, items.len() as int);
    assert forall|i: int| 0 <= i < items.len() implies s[i] == items[i]@ by {}
    assert forall|i: int|
        0 <= i < items.len() && matches_query(items[i]@, query) implies filter_spec(
        items,
        query,
    ).contains(i as usize) by {
        assert(s[i] == items[i]@);
    }
}

/// With an empty query every item is listed.
pub proof fn law_empty_query_lists_all(items: Seq<String>)
    requires
        items.len() <= usize::MAX,
    ensures
        filter_spec(items, Seq::<char>::empty()) == all_indices(items.len()),
{
    lemma_all_listed(sv(items), items.len() as int);
}

proof fn lemma_all_listed(items: Seq<Seq<char>>, n: int)
    requires
        0 <= n <= items.len(),
        items.len() <= usize::MAX,
    ensures
        filtered_upto(items, Seq::<char>::empty(), n) == all_indices(n as nat),
    decreases n,
{
    if n > 0 {
        lemma_all_listed(items, n - 1);
        assert(all_indices(n as nat) =~= all_indices((n - 1) as nat).push((n - 1) as usize));
    } else {
        assert(all_indices(0) =~= Seq::<usize>::empty());
    }
}


proof fn lemma_find_ci_none(labels: Seq<Seq<char>>, label: Seq<char>)
    requires
        forall|j: int| 0 <= j < labels.len() ==> lower_seq(#[trigger] labels[j]) != lower_seq(label),
    ensures
        find_label_ci(labels, label) is None,
    decreases labels.len(),
{
    if labels.len() > 0 {
        lemma_find_ci_none(labels.drop_last(), label);
        assert(lower_seq(labels[labels.len() - 1]) != lower_seq(label));
    }
}

/// Labels that differ ignoring ASCII case read back to their own index: a
/// loader or GC preset written into a form is parsed back to itself.
pub proof fn law_label_round_trip(labels: Seq<Seq<char>>, i: int)
    requires
        0 <= i < labels.len(),
        forall|j: int|
            0 <= j < labels.len() && j != i ==> lower_seq(#[trigger] labels[j]) != lower_seq(labels[i]),
    ensures
        find_label_ci(labels, labels[i]) == Some(i),
    decreases labels.len(),
{
    if i < labels.len() - 1 {
        let d = labels.drop_last();
        assert(d[i] == labels[i]);
        assert forall|j: int| 0 <= j < d.len() && j != i implies lower_seq(#[trigger] d[j]) != lower_seq(d[i]) by {
            assert(d[j] == labels[j]);
        }
        law_label_round_trip(d, i);
    } else {
        let d = labels.drop_last();
        assert forall|j: int| 0 <= j < d.len() implies lower_seq(#[trigger] d[j]) != lower_seq(labels[i]) by {
            assert(d[j] == labels[j]);
        }
        lemma_find_ci_none(d, labels[i]);
    }
}

} // verus!
