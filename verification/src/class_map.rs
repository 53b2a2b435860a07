use crate::text::{decimal, decimal_string};
use vstd::prelude::*;
use vstd::string::StringExecFns;

verus! {

/// How the class maps of a module are written out.
#[derive(Debug, Clone, Copy, PartialEq, Eq, Structural)]
pub enum ClassMapOutput {
    Inline,
    Table,
}

impl ClassMapOutput {
    /// The name of the mode as a configuration value writes it.
    pub open spec fn name_text(self) -> Seq<char> {
        match self {
            ClassMapOutput::Inline => "inline"@,
            ClassMapOutput::Table => "table"@,
        }
    }

    /// The name of the mode as a configuration value writes it.
    pub fn name(&self) -> (s: String)
        ensures
            s@ == self.name_text(),
    {
        match self {
            ClassMapOutput::Inline => String::from_str("inline"),
            ClassMapOutput::Table => String::from_str("table"),
        }
    }
}

/// Two class lists joined by one space; an empty list adds nothing.
pub open spec fn join(a: Seq<char>, b: Seq<char>) -> Seq<char> {
    if a.len() == 0 {
        b
    } else if b.len() == 0 {
        a
    } else {
        a + seq![' '] + b
    }
}

/// Joins strings [a] and [b] with ' ' separator.
pub fn join_strings(a: &str, b: &str) -> (s: String)
    ensures
        s@ == join(a@, b@),
{
    if a.unicode_len() == 0 {
        String::from_str(b)
    } else if b.unicode_len() == 0 {
        String::from_str(a)
    } else {
        let mut s = String::from_str(a);
        s.push(' ');
        s.append(b);
        s
    }
}

/// Whether the set of active states `mask` contains none of the forbidden
/// combinations in `exclude`.
pub open spec fn satisfied(exclude: Seq<usize>, mask: usize) -> bool {
    forall|k: int| 0 <= k < exclude.len() ==> (mask & #[trigger] exclude[k]) != exclude[k]
}

/// A set of states that contains a forbidden combination is not satisfied.
pub proof fn lemma_excluded_is_unsatisfied(exclude: Seq<usize>, mask: usize, k: int)
    requires
        0 <= k < exclude.len(),
        (mask & exclude[k]) == exclude[k],
    ensures
        !satisfied(exclude, mask),
{
}

/// The mask with the lowest `i` bits set.
pub open spec fn low_mask(i: usize) -> usize {
    !(!0usize << i)
}

/// Whether state `i` is active in `mask`.
pub open spec fn has_state(mask: usize, i: usize) -> bool {
    mask & (1usize << i) != 0
}

pub struct ClassMapStateView {
    pub name: Seq<char>,
    pub classes: Seq<char>,
}

#[derive(Debug)]
pub struct ClassMapState {
    pub name: String,
    pub classes: String,
}

impl View for ClassMapState {
    type V = ClassMapStateView;

    open spec fn view(&self) -> ClassMapStateView {
        ClassMapStateView { name: self.name@, classes: self.classes@ }
    }
}

impl ClassMapState {
    pub fn new(name: String, classes: String) -> (s: Self)
        ensures
            s@ == (ClassMapStateView { name: name@, classes: classes@ }),
    {
        Self { name, classes }
    }
}

pub struct ClassMapView {
    pub name: Seq<char>,
    pub static_classes: Seq<char>,
    pub states: Seq<ClassMapStateView>,
    pub exclude_constraints: Seq<usize>,
}

impl ClassMapView {
    /// The class list of the states from `i` on that are active in `mask`,
    /// joined to `prefix` in the order of the states.
    pub open spec fn compose_from(self, prefix: Seq<char>, i: nat, mask: usize) -> Seq<char>
        decreases self.states.len() - i,
    {
        if i >= self.states.len() {
            prefix
        } else if has_state(mask, i as usize) {
            self.compose_from(join(prefix, self.states[i as int].classes), i + 1, mask)
        } else {
            self.compose_from(prefix, i + 1, mask)
        }
    }

    /// The class list for the set of active states `mask`: the static
    /// classes, then those of each active state.
    pub open spec fn compose(self, mask: usize) -> Seq<char> {
        self.compose_from(self.static_classes, 0, mask)
    }

    /// The entry of the lookup table for `mask`.
    pub open spec fn table_entry(self, mask: usize) -> Seq<char> {
        if satisfied(self.exclude_constraints, mask) {
            self.compose(mask)
        } else {
            Seq::empty()
        }
    }

    /// The conditional expression over the states from `i` on, where the
    /// states in `mask` are known to be active and `prefix` is their class
    /// list. A state that cannot be added to `mask` gets no branch.
    pub open spec fn inline_expr(self, i: nat, prefix: Seq<char>, mask: usize) -> Seq<char>
        decreases self.states.len() - i,
    {
        if i >= self.states.len() {
            "\""@ + prefix + "\""@
        } else {
            let with = mask | (1usize << (i as usize));
            if satisfied(self.exclude_constraints, with) {
                "("@ + self.states[i as int].name + " ? "@ + self.inline_expr(
                    i + 1,
                    join(prefix, self.states[i as int].classes),
                    with,
                ) + " : "@ + self.inline_expr(i + 1, prefix, mask) + ")"@
            } else {
                self.inline_expr(i + 1, prefix, mask)
            }
        }
    }

    /// What the conditional expression `inline_expr(i, prefix, mask)` gives
    /// where the states in `active` are true and the others false: at each
    /// branch it goes the way that the state of the branch says.
    pub open spec fn inline_value(self, i: nat, prefix: Seq<char>, mask: usize, active: usize) -> Seq<
        char,
    >
        decreases self.states.len() - i,
    {
        if i >= self.states.len() {
            prefix
        } else {
            let with = mask | (1usize << (i as usize));
            if satisfied(self.exclude_constraints, with) && has_state(active, i as usize) {
                self.inline_value(
                    i + 1,
                    join(prefix, self.states[i as int].classes),
                    with,
                    active,
                )
            } else {
                self.inline_value(i + 1, prefix, mask, active)
            }
        }
    }

    /// The names of the first `n` states, separated by `, `, each followed
    /// by `suffix`.
    pub open spec fn params(self, n: nat, suffix: Seq<char>) -> Seq<char>
        decreases n,
    {
        if n == 0 || n > self.states.len() {
            Seq::empty()
        } else if n == 1 {
            self.states[0].name + suffix
        } else {
            self.params((n - 1) as nat, suffix) + ", "@ + self.states[n - 1].name + suffix
        }
    }

    /// The head that the function has in both targets, up to its opening
    /// parenthesis.
    pub open spec fn function_head(self) -> Seq<char> {
        "/** classmap {@link "@ + self.name + "} */\nexport function "@ + self.name + "("@
    }

    /// The first `n` lines of the lookup table.
    pub open spec fn table_lines(self, n: nat) -> Seq<char>
        decreases n,
    {
        if n == 0 {
            Seq::empty()
        } else {
            self.table_lines((n - 1) as nat) + "  \""@ + self.table_entry((n - 1) as usize)
                + "\",\n"@
        }
    }

    /// The expression that computes the table index from the first `n`
    /// states.
    pub open spec fn index_expr(self, n: nat) -> Seq<char>
        decreases n,
    {
        if n == 0 || n > self.states.len() {
            Seq::empty()
        } else if n == 1 {
            "("@ + self.states[0].name + " ? 1 : 0)"@
        } else {
            self.index_expr((n - 1) as nat) + " | ("@ + self.states[n - 1].name + " ? "@ + decimal(
                (1usize << ((n - 1) as usize)) as nat,
            ) + " : 0)"@
        }
    }

    /// The declaration of the lookup table.
    pub open spec fn table_decl(self) -> Seq<char> {
        "const __CLASS_MAP_"@ + self.name + " = [\n"@ + self.table_lines(
            (1usize << (self.states.len() as usize)) as nat,
        ) + "];\n\n"@
    }

    /// The body of the function that looks its result up in the table.
    pub open spec fn table_body(self) -> Seq<char> {
        ") {\n return __CLASS_MAP_"@ + self.name + "["@ + self.index_expr(self.states.len())
            + "];\n}\n"@
    }

    /// The body of the function that computes its result by one conditional
    /// expression.
    pub open spec fn inline_body(self) -> Seq<char> {
        ") {\n return "@ + self.inline_expr(0, self.static_classes, 0) + ";\n}\n"@
    }

    /// The function in the dynamic target language, as a lookup in a table.
    pub open spec fn js_table(self) -> Seq<char> {
        self.table_decl() + self.function_head() + self.params(self.states.len(), Seq::empty())
            + self.table_body()
    }

    /// The function in the dynamic target language, as one conditional
    /// expression.
    pub open spec fn js_inline(self) -> Seq<char> {
        self.function_head() + self.params(self.states.len(), Seq::empty()) + self.inline_body()
    }

    /// The function in the dynamic target language.
    pub open spec fn js(self, kind: ClassMapOutput) -> Seq<char> {
        match kind {
            ClassMapOutput::Table => self.js_table(),
            ClassMapOutput::Inline => self.js_inline(),
        }
    }

    /// The declaration of the function in the typed target language.
    pub open spec fn ts(self) -> Seq<char> {
        self.function_head() + self.params(self.states.len(), ": boolean"@) + "): string;\n"@
    }
}

#[derive(Debug)]
pub struct ClassMap {
    // @classmap NAME { ... }
    pub name: String,
    // @static static-class-a static-class-b;
    pub static_classes: String,
    // disabled: class-disabled-1 class-disabled-2;
    pub states: Vec<ClassMapState>,
    // @exclude active and disabled;
    // => maps to state indexes
    pub exclude_constraints: Vec<usize>,
}

impl View for ClassMap {
    type V = ClassMapView;

    open spec fn view(&self) -> ClassMapView {
        ClassMapView {
            name: self.name@,
            static_classes: self.static_classes@,
            states: self.states@.map_values(|s: ClassMapState| s@),
            exclude_constraints: self.exclude_constraints@,
        }
    }
}

/// The most states that a class map may have.
pub const MAX_STATES: usize = 8;

proof fn lemma_unsatisfied_extends(m: usize, l: usize, e: usize)
    by (bit_vector)
    requires
        ((m & l) & e) == e,
    ensures
        (m & e) == e,
{
}

proof fn lemma_low_mask_step(m: usize, i: usize)
    by (bit_vector)
    requires
        i < 8,
    ensures
        m & !(!0usize << 0usize) == 0,
        m & (1usize << i) != 0 ==> (m & !(!0usize << i)) | (1usize << i) == m & !(!0usize << (
            (i + 1) as usize)),
        m & (1usize << i) == 0 ==> m & !(!0usize << i) == m & !(!0usize << ((i + 1) as usize)),
{
}

proof fn lemma_inline_value_from(map: ClassMapView, i: nat, prefix: Seq<char>, active: usize)
    requires
        map.states.len() <= MAX_STATES,
        i <= map.states.len(),
        satisfied(map.exclude_constraints, active),
    ensures
        map.inline_value(i, prefix, active & low_mask(i as usize), active) == map.compose_from(
            prefix,
            i,
            active,
        ),
    decreases map.states.len() - i,
{
    if i < map.states.len() {
        let mask = active & low_mask(i as usize);
        let with = mask | (1usize << (i as usize));
        lemma_low_mask_step(active, i as usize);
        if has_state(active, i as usize) {
            assert(with == active & low_mask((i + 1) as usize));
            assert forall|k: int| 0 <= k < map.exclude_constraints.len() implies (with
                & #[trigger] map.exclude_constraints[k]) != map.exclude_constraints[k] by {
                if (with & map.exclude_constraints[k]) == map.exclude_constraints[k] {
                    lemma_unsatisfied_extends(
                        active,
                        low_mask((i + 1) as usize),
                        map.exclude_constraints[k],
                    );
                }
            }
            lemma_inline_value_from(map, i + 1, join(prefix, map.states[i as int].classes), active);
        } else {
            assert(mask == active & low_mask((i + 1) as usize));
            lemma_inline_value_from(map, i + 1, prefix, active);
        }
    }
}

/// The two forms of the function agree: with the states of a permitted set
/// true and the others false, the conditional expression gives the entry
/// that the table has for that set.
pub proof fn lemma_inline_gives_table_entry(map: ClassMapView, active: usize)
    requires
        map.states.len() <= MAX_STATES,
        satisfied(map.exclude_constraints, active),
    ensures
        map.inline_value(0, map.static_classes, 0, active) == map.table_entry(active),
{
    lemma_low_mask_step(active, 0);
    lemma_inline_value_from(map, 0, map.static_classes, active);
}

proof fn lemma_low_mask_all(m: usize, n: usize)
    by (bit_vector)
    requires
        n <= 8,
        m < (1usize << n),
    ensures
        m & !(!0usize << n) == m,
{
}

proof fn lemma_low_mask_split(m: usize, mask: usize, i: usize)
    by (bit_vector)
    requires
        i < 8,
        mask < (1usize << i),
    ensures
        (mask | (1usize << i)) < (1usize << ((i + 1) as usize)),
        mask < (1usize << ((i + 1) as usize)),
        (m & !(!0usize << i) == mask) <==> (m & !(!0usize << ((i + 1) as usize)) == mask || m & !(
            !0usize << ((i + 1) as usize)) == (mask | (1usize << i))),
        m & !(!0usize << ((i + 1) as usize)) == mask ==> m & (1usize << i) == 0,
        m & !(!0usize << ((i + 1) as usize)) == (mask | (1usize << i)) ==> m & (1usize << i) != 0,
{
}

proof fn lemma_shift_bounds(i: usize)
    by (bit_vector)
    requires
        i <= 8,
    ensures
        0 < (1usize << i) <= 256,
        i < 8 ==> (1usize << ((i + 1) as usize)) == 2 * (1usize << i),
        (1usize << 0usize) == 1,
{
}

impl ClassMap {
    pub fn new(
        name: String,
        static_classes: String,
        states: Vec<ClassMapState>,
        exclude_constraints: Vec<usize>,
    ) -> (cm: Self)
        ensures
            cm.name == name,
            cm.static_classes == static_classes,
            cm.states == states,
            cm.exclude_constraints == exclude_constraints,
    {
        Self { name, static_classes, states, exclude_constraints }
    }

    /// Checks index bitmask in excluded constraints.
    pub fn is_constraints_satisfied(&self, index: usize) -> (b: bool)
        ensures
            b == satisfied(self@.exclude_constraints, index),
    {
        let mut k: usize = 0;
        while k < self.exclude_constraints.len()
            invariant
                k <= self.exclude_constraints.len(),
                forall|j: int|
                    0 <= j < k ==> (index & #[trigger] self.exclude_constraints@[j])
                        != self.exclude_constraints@[j],
            decreases self.exclude_constraints.len() - k,
        {
            let constraint = self.exclude_constraints[k];
            if (index & constraint) == constraint {
                return false;
            }
            k += 1;
        }
        true
    }

    /// A table with one empty entry for each set of states.
    pub fn create_empty_table(&self) -> (table: Vec<String>)
        requires
            self@.states.len() <= MAX_STATES,
        ensures
            table.len() == 1usize << (self@.states.len() as usize),
            forall|m: int| 0 <= m < table.len() ==> (#[trigger] table[m])@ == Seq::<char>::empty(),
    {
        let n: usize = self.states.len();
        let size: usize = 1usize << n;
        proof {
            lemma_shift_bounds(n);
        }
        let mut table: Vec<String> = Vec::new();
        let mut m: usize = 0;
        while m < size
            invariant
                m <= size,
                table.len() == m,
                forall|j: int| 0 <= j < table.len() ==> (#[trigger] table[j])@ == Seq::<char>::empty(),
            decreases size - m,
        {
            table.push(String::new());
            m += 1;
        }
        table
    }

    /// Fills in the entries of `result` for the sets of states that agree
    /// with `prev_state_mask` on the states below `i`, where `prev_state` is
    /// the class list of `prev_state_mask`. The entry of a set that contains
    /// a forbidden combination stays as it was.
    pub fn populate_table(
        &self,
        result: &mut Vec<String>,
        i: usize,
        prev_state: &str,
        prev_state_mask: usize,
    )
        requires
            self@.states.len() <= MAX_STATES,
            old(result).len() == 1usize << (self@.states.len() as usize),
            i <= self@.states.len(),
            prev_state_mask < (1usize << i),
        ensures
            final(result).len() == old(result).len(),
            forall|m: usize|
                m < final(result).len() ==> (#[trigger] final(result)[m as int])@ == (if m
                    & low_mask(i) == prev_state_mask && satisfied(self@.exclude_constraints, m) {
                    self@.compose_from(prev_state@, i as nat, m)
                } else {
                    old(result)[m as int]@
                }),
        decreases self@.states.len() - i,
    {
        let n: usize = self.states.len();
        if !self.is_constraints_satisfied(prev_state_mask) {
            proof {
                let ex = self@.exclude_constraints;
                let k = choose|k: int|
                    0 <= k < ex.len() && (prev_state_mask & #[trigger] ex[k]) == ex[k];
                assert forall|m: usize| m & low_mask(i) == prev_state_mask implies !satisfied(
                    ex,
                    m,
                ) by {
                    lemma_unsatisfied_extends(m, low_mask(i), ex[k]);
                }
            }
            return ;
        }
        if i == n {
            proof {
                assert forall|m: usize| m < result.len() implies m & low_mask(i) == m by {
                    lemma_low_mask_all(m, i);
                }
            }
            result.set(prev_state_mask, String::from_str(prev_state));
        } else {
            let next_i: usize = i + 1;
            let ghost before = *result;
            proof {
                lemma_low_mask_split(0, prev_state_mask, i);
            }
            self.populate_table(result, next_i, prev_state, prev_state_mask);
            let joined = join_strings(prev_state, self.states[i].classes.as_str());
            self.populate_table(result, next_i, joined.as_str(), prev_state_mask | (1usize << i));
            proof {
                assert(self@.states[i as int].classes == self.states[i as int].classes@);
                assert forall|m: usize| m < result.len() implies (#[trigger] result[m as int])@ == (
                if m & low_mask(i) == prev_state_mask && satisfied(self@.exclude_constraints, m) {
                    self@.compose_from(prev_state@, i as nat, m)
                } else {
                    before[m as int]@
                }) by {
                    lemma_low_mask_split(m, prev_state_mask, i);
                }
            }
        }
    }

    /// The lookup table: for each set of states its class list, or nothing
    /// where the set contains a forbidden combination.
    pub fn table(&self) -> (table: Vec<String>)
        requires
            self@.states.len() <= MAX_STATES,
        ensures
            table.len() == 1usize << (self@.states.len() as usize),
            forall|m: usize| m < table.len() ==> (#[trigger] table[m as int])@ == self@.table_entry(m),
    {
        let mut table = self.create_empty_table();
        proof {
            lemma_shift_bounds(0);
        }
        self.populate_table(&mut table, 0, self.static_classes.as_str(), 0);
        proof {
            assert forall|m: usize| m < table.len() implies (#[trigger] table[m as int])@
                == self@.table_entry(m) by {
                assert(m & low_mask(0) == 0) by (bit_vector);
            }
        }
        table
    }

    /// Appends to `output` the conditional expression over the states from
    /// `i` on.
    pub fn write_inline_cond_expr(
        &self,
        output: &mut String,
        i: usize,
        prev_state: &str,
        prev_state_mask: usize,
    )
        requires
            self@.states.len() <= MAX_STATES,
            i <= self@.states.len(),
        ensures
            final(output)@ == old(output)@ + self@.inline_expr(
                i as nat,
                prev_state@,
                prev_state_mask,
            ),
        decreases self@.states.len() - i,
    {
        let mut j: usize = i;
        while j < self.states.len()
            invariant
                self@.states.len() <= MAX_STATES,
                i <= j <= self@.states.len(),
                output@ == old(output)@,
                self@.inline_expr(i as nat, prev_state@, prev_state_mask) == self@.inline_expr(
                    j as nat,
                    prev_state@,
                    prev_state_mask,
                ),
            decreases self.states.len() - j,
        {
            let s = &self.states[j];
            let next_state = join_strings(prev_state, s.classes.as_str());
            let next_state_mask = prev_state_mask | (1usize << j);
            assert(self@.states[j as int] == s@);
            j += 1;
            if self.is_constraints_satisfied(next_state_mask) {
                output.push('(');
                output.append(s.name.as_str());
                output.append(" ? ");
                self.write_inline_cond_expr(output, j, next_state.as_str(), next_state_mask);
                output.append(" : ");
                self.write_inline_cond_expr(output, j, prev_state, prev_state_mask);
                output.push(')');
                proof {
                    reveal_strlit("(");
                    reveal_strlit(")");
                    let a = self@.inline_expr(j as nat, next_state@, next_state_mask);
                    let b = self@.inline_expr(j as nat, prev_state@, prev_state_mask);
                    assert(output@ =~= old(output)@ + ("("@ + s@.name + " ? "@ + a + " : "@ + b + ")"@));
                }
                return ;
            }
        }
        output.push('"');
        output.append(prev_state);
        output.push('"');
        proof {
            reveal_strlit("\"");
            assert(output@ =~= old(output)@ + ("\""@ + prev_state@ + "\""@));
        }
    }

    /// Appends the names of the states, separated by `, `, each followed by
    /// `suffix`.
    fn write_params(&self, output: &mut String, suffix: &str)
        ensures
            final(output)@ == old(output)@ + self@.params(self@.states.len(), suffix@),
    {
        let n: usize = self.states.len();
        let mut k: usize = 0;
        while k < n
            invariant
                k <= n,
                n == self@.states.len(),
                output@ == old(output)@ + self@.params(k as nat, suffix@),
            decreases n - k,
        {
            assert(self@.states[k as int] == self.states[k as int]@);
            if k > 0 {
                output.append(", ");
            }
            output.append(self.states[k].name.as_str());
            output.append(suffix);
            k += 1;
            proof {
                let name = self@.states[k - 1].name;
                if k == 1 {
                    assert(self@.params(0, suffix@) =~= Seq::<char>::empty());
                    assert(output@ =~= old(output)@ + (name + suffix@));
                } else {
                    assert(output@ =~= old(output)@ + (self@.params((k - 1) as nat, suffix@) + ", "@
                        + name + suffix@));
                }
            }
        }
    }

    /// Appends the comment and the head of the function, up to its opening
    /// parenthesis.
    fn write_function_head(&self, output: &mut String)
        ensures
            final(output)@ == old(output)@ + self@.function_head(),
    {
        output.append("/** classmap {@link ");
        output.append(self.name.as_str());
        output.append("} */\nexport function ");
        output.append(self.name.as_str());
        output.append("(");
        assert(output@ =~= old(output)@ + self@.function_head());
    }

    /// Appends the declaration of the lookup table.
    fn write_table_decl(&self, output: &mut String)
        requires
            self@.states.len() <= MAX_STATES,
        ensures
            final(output)@ == old(output)@ + self@.table_decl(),
    {
        let table = self.table();
        let mut lines = String::new();
        let mut m: usize = 0;
        while m < table.len()
            invariant
                m <= table.len(),
                table.len() == 1usize << (self@.states.len() as usize),
                forall|j: usize|
                    j < table.len() ==> (#[trigger] table[j as int])@ == self@.table_entry(j),
                lines@ == self@.table_lines(m as nat),
            decreases table.len() - m,
        {
            lines.append("  \"");
            lines.append(table[m].as_str());
            lines.append("\",\n");
            m += 1;
            proof {
                assert(table[m - 1]@ == self@.table_entry((m - 1) as usize));
            }
        }
        output.append("const __CLASS_MAP_");
        output.append(self.name.as_str());
        output.append(" = [\n");
        output.append(lines.as_str());
        output.append("];\n\n");
        assert(output@ =~= old(output)@ + self@.table_decl());
    }

    /// Appends the body of the function that looks its result up in the
    /// table.
    fn write_table_body(&self, output: &mut String)
        requires
            self@.states.len() <= MAX_STATES,
        ensures
            final(output)@ == old(output)@ + self@.table_body(),
    {
        let mut expr = String::new();
        let n: usize = self.states.len();
        let mut k: usize = 0;
        while k < n
            invariant
                k <= n,
                n == self@.states.len(),
                n <= MAX_STATES,
                expr@ == self@.index_expr(k as nat),
            decreases n - k,
        {
            assert(self@.states[k as int] == self.states[k as int]@);
            if k == 0 {
                expr.append("(");
                expr.append(self.states[k].name.as_str());
                expr.append(" ? 1 : 0)");
            } else {
                expr.append(" | (");
                expr.append(self.states[k].name.as_str());
                expr.append(" ? ");
                let weight = decimal_string(1usize << k);
                expr.append(weight.as_str());
                expr.append(" : 0)");
            }
            k += 1;
        }
        output.append(") {\n return __CLASS_MAP_");
        output.append(self.name.as_str());
        output.append("[");
        output.append(expr.as_str());
        output.append("];\n}\n");
        assert(output@ =~= old(output)@ + self@.table_body());
    }

    /// Appends the body of the function that computes its result by one
    /// conditional expression.
    fn write_inline_body(&self, output: &mut String)
        requires
            self@.states.len() <= MAX_STATES,
        ensures
            final(output)@ == old(output)@ + self@.inline_body(),
    {
        output.append(") {\n return ");
        self.write_inline_cond_expr(output, 0, self.static_classes.as_str(), 0);
        output.append(";\n}\n");
        assert(output@ =~= old(output)@ + self@.inline_body());
    }

    /// Appends the function in the dynamic target language, in the form that
    /// `kind` asks for.
    pub fn emit_js(&self, output: &mut String, kind: ClassMapOutput)
        requires
            self@.states.len() <= MAX_STATES,
        ensures
            final(output)@ == old(output)@ + self@.js(kind),
    {
        proof {
            reveal_strlit("");
            assert(""@ =~= Seq::<char>::empty());
        }
        if let ClassMapOutput::Table = kind {
            self.write_table_decl(output);
            self.write_function_head(output);
            self.write_params(output, "");
            self.write_table_body(output);
            assert(output@ =~= old(output)@ + self@.js_table());
        } else {
            self.write_function_head(output);
            self.write_params(output, "");
            self.write_inline_body(output);
            assert(output@ =~= old(output)@ + self@.js_inline());
        }
    }

    /// Appends the declaration of the function in the typed target language.
    pub fn emit_ts(&self, output: &mut String)
        ensures
            final(output)@ == old(output)@ + self@.ts(),
    {
        self.write_function_head(output);
        self.write_params(output, ": boolean");
        output.append("): string;\n");
        assert(output@ =~= old(output)@ + self@.ts());
    }
}

} // verus!
