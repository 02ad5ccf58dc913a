use vstd::prelude::*;

verus! {

/// One rule of a dependency file: a target and the prerequisites it was
/// built from, as raw path bytes.
pub struct DepRule {
    pub target: Vec<u8>,
    pub deps: Vec<Vec<u8>>,
}

/// The scanner's state over a dependency file, content-wise: finished
/// rules, a token completed before the colon, the target once the colon
/// is past, the token being read, the prerequisites of the open rule, and
/// whether the text has already failed to conform.
pub struct ScanState {
    pub rules: Seq<(Seq<u8>, Seq<Seq<u8>>)>,
    pub pre: Option<Seq<u8>>,
    pub target: Option<Seq<u8>>,
    pub cur: Seq<u8>,
    pub deps: Seq<Seq<u8>>,
    pub failed: bool,
}

/// The scanner before any input.
pub open spec fn initial_state() -> ScanState {
    ScanState {
        rules: Seq::empty(),
        pre: None,
        target: None,
        cur: Seq::empty(),
        deps: Seq::empty(),
        failed: false,
    }
}

/// Blank bytes inside a line: space, tab, carriage return.
pub open spec fn is_space(b: u8) -> bool {
    b == 32 || b == 9 || b == 13
}

/// Whitespace (or an escaped line break) ends the token being read:
/// before the colon it becomes the rule's one target-side token — a
/// second one does not conform — and after the colon it becomes a
/// prerequisite.
pub open spec fn step_space(st: ScanState) -> ScanState {
    if st.failed || st.cur.len() == 0 {
        st
    } else {
        match st.target {
            None => {
                if st.pre is Some {
                    ScanState { failed: true, ..st }
                } else {
                    ScanState { pre: Some(st.cur), cur: Seq::empty(), ..st }
                }
            },
            Some(_) => ScanState { deps: st.deps.push(st.cur), cur: Seq::empty(), ..st },
        }
    }
}

/// The first colon of a line closes its target; an empty target or two
/// target-side tokens do not conform. Later colons are ordinary path
/// bytes.
pub open spec fn step_colon(st: ScanState) -> ScanState {
    if st.failed {
        st
    } else {
        match st.target {
            Some(_) => ScanState { cur: st.cur.push(58), ..st },
            None => {
                if st.cur.len() > 0 {
                    if st.pre is Some {
                        ScanState { failed: true, ..st }
                    } else {
                        ScanState { target: Some(st.cur), cur: Seq::empty(), ..st }
                    }
                } else {
                    match st.pre {
                        Some(p) => ScanState { target: Some(p), pre: None, ..st },
                        None => ScanState { failed: true, ..st },
                    }
                }
            },
        }
    }
}

/// An unescaped line break closes the rule; a line with text but no
/// colon does not conform, and a blank line is skipped.
pub open spec fn step_newline(st: ScanState) -> ScanState {
    if st.failed {
        st
    } else {
        match st.target {
            None => {
                if st.cur.len() == 0 && st.pre is None {
                    st
                } else {
                    ScanState { failed: true, ..st }
                }
            },
            Some(t) => {
                let deps = if st.cur.len() > 0 {
                    st.deps.push(st.cur)
                } else {
                    st.deps
                };
                ScanState {
                    rules: st.rules.push((t, deps)),
                    pre: None,
                    target: None,
                    cur: Seq::empty(),
                    deps: Seq::empty(),
                    failed: false,
                }
            },
        }
    }
}

/// Any other byte extends the token being read.
pub open spec fn step_byte(st: ScanState, b: u8) -> ScanState {
    if st.failed {
        st
    } else {
        ScanState { cur: st.cur.push(b), ..st }
    }
}

/// Runs the scanner over the text: a backslash before a line break (bare
/// or with a carriage return) acts as whitespace (the continuation); a
/// backslash escapes a space, tab, backslash or colon into an ordinary
/// path byte; a bare line break closes the rule, blanks separate tokens,
/// and the first colon of a line closes its target.
pub open spec fn scan(t: Seq<u8>, st: ScanState) -> ScanState
    decreases t.len(),
{
    if t.len() == 0 {
        st
    } else if t.len() >= 3 && t[0] == 92 && t[1] == 13 && t[2] == 10 {
        scan(t.skip(3), step_space(st))
    } else if t.len() >= 2 && t[0] == 92 && t[1] == 10 {
        scan(t.skip(2), step_space(st))
    } else if t.len() >= 2 && t[0] == 92 && (t[1] == 32 || t[1] == 9 || t[1] == 92 || t[1]
        == 58) {
        scan(t.skip(2), step_byte(st, t[1]))
    } else if t[0] == 10 {
        scan(t.skip(1), step_newline(st))
    } else if is_space(t[0]) {
        scan(t.skip(1), step_space(st))
    } else if t[0] == 58 {
        scan(t.skip(1), step_colon(st))
    } else {
        scan(t.skip(1), step_byte(st, t[0]))
    }
}

/// What a dependency file's text parses to: its rules in order, or
/// nothing when the text does not conform. The end of the text closes
/// the last rule as a line break would.
pub open spec fn spec_parse_depfile(t: Seq<u8>) -> Option<Seq<(Seq<u8>, Seq<Seq<u8>>)>> {
    let fin = step_newline(scan(t, initial_state()));
    if fin.failed {
        None
    } else {
        Some(fin.rules)
    }
}

/// The rules' content.
pub open spec fn rules_view(rules: Seq<DepRule>) -> Seq<(Seq<u8>, Seq<Seq<u8>>)> {
    rules.map_values(|r: DepRule| (r.target@, r.deps@.map_values(|d: Vec<u8>| d@)))
}

/// The scanner's state, assembled from the parser's working values.
pub open spec fn state_of(
    rules: Seq<DepRule>,
    pre: Option<Vec<u8>>,
    target: Option<Vec<u8>>,
    cur: Vec<u8>,
    deps: Seq<Vec<u8>>,
    failed: bool,
) -> ScanState {
    ScanState {
        rules: rules_view(rules),
        pre: match pre {
            Some(v) => Some(v@),
            None => None,
        },
        target: match target {
            Some(v) => Some(v@),
            None => None,
        },
        cur: cur@,
        deps: deps.map_values(|d: Vec<u8>| d@),
        failed,
    }
}

/// Parses a Make-style dependency file: each rule is a target, a colon,
/// and a whitespace-separated list of prerequisite paths, with a
/// backslash-escaped line break continuing the list. Yields the rules in
/// order, or nothing when the text does not conform.
pub fn parse_depfile(text: &Vec<u8>) -> (r: Option<Vec<DepRule>>)
    ensures
        match r {
            Some(rules) => spec_parse_depfile(text@) == Some(rules_view(rules@)),
            None => spec_parse_depfile(text@) is None,
        },
{
    let n = text.len();
    let mut rules: Vec<DepRule> = Vec::new();
    let mut pre: Option<Vec<u8>> = None;
    let mut target: Option<Vec<u8>> = None;
    let mut cur: Vec<u8> = Vec::new();
    let mut deps: Vec<Vec<u8>> = Vec::new();
    let mut failed = false;
    let mut i: usize = 0;
    proof {
        assert(rules_view(rules@) =~= Seq::<(Seq<u8>, Seq<Seq<u8>>)>::empty());
        assert(cur@ =~= Seq::<u8>::empty());
        assert(deps@.map_values(|d: Vec<u8>| d@) =~= Seq::<Seq<u8>>::empty());
        assert(state_of(rules@, pre, target, cur, deps@, failed) == initial_state());
        assert(text@.skip(0) =~= text@);
    }
    while i < n
        invariant
            n == text@.len(),
            i <= n,
            scan(text@, initial_state()) == scan(
                text@.skip(i as int),
                state_of(rules@, pre, target, cur, deps@, failed),
            ),
        decreases n - i,
    {
        let ghost st0 = state_of(rules@, pre, target, cur, deps@, failed);
        let ghost rest = text@.skip(i as int);
        proof {
            assert(rest[0] == text@[i as int]);
            if i + 1 < n {
                assert(rest[1] == text@[i as int + 1]);
            }
            if i + 2 < n {
                assert(rest[2] == text@[i as int + 2]);
            }
            assert(rest.skip(1) =~= text@.skip(i as int + 1));
            if i + 2 <= n {
                assert(rest.skip(2) =~= text@.skip(i as int + 2));
            }
            if i + 3 <= n {
                assert(rest.skip(3) =~= text@.skip(i as int + 3));
            }
        }
        let b = text[i];
        let esc_crlf = b == 92 && n - i > 2 && text[i + 1] == 13 && text[i + 2] == 10;
        let esc_nl = b == 92 && i + 1 < n && text[i + 1] == 10;
        let esc_lit = b == 92 && i + 1 < n && (text[i + 1] == 32 || text[i + 1] == 9 || text[i + 1]
            == 92 || text[i + 1] == 58);
        if failed {
            proof {
                assert(step_space(st0) == st0 && step_newline(st0) == st0 && step_colon(st0) == st0
                    && step_byte(st0, b) == st0);
                if i + 1 < n {
                    assert(step_byte(st0, text@[i as int + 1]) == st0);
                }
            }
            i = if esc_crlf {
                i + 3
            } else if esc_nl || esc_lit {
                i + 2
            } else {
                i + 1
            };
        } else if esc_crlf || esc_nl {
            if cur.len() > 0 {
                match &target {
                    None => {
                        if pre.is_some() {
                            failed = true;
                        } else {
                            let tok = cur;
                            cur = Vec::new();
                            pre = Some(tok);
                        }
                    },
                    Some(_) => {
                        let tok = cur;
                        cur = Vec::new();
                        deps.push(tok);
                        proof {
                            assert(deps@.map_values(|d: Vec<u8>| d@) =~= st0.deps.push(st0.cur));
                        }
                    },
                }
            }
            proof {
                assert(state_of(rules@, pre, target, cur, deps@, failed) == step_space(st0));
            }
            i = if esc_crlf {
                i + 3
            } else {
                i + 2
            };
        } else if esc_lit {
            let escaped = text[i + 1];
            cur.push(escaped);
            proof {
                assert(state_of(rules@, pre, target, cur, deps@, failed) == step_byte(
                    st0,
                    text@[i as int + 1],
                ));
            }
            i = i + 2;
        } else if b == 10 {
            match target {
                None => {
                    if cur.len() > 0 || pre.is_some() {
                        failed = true;
                        target = None;
                    } else {
                        target = None;
                    }
                },
                Some(t) => {
                    if cur.len() > 0 {
                        let tok = cur;
                        cur = Vec::new();
                        deps.push(tok);
                        proof {
                            assert(deps@.map_values(|d: Vec<u8>| d@) =~= st0.deps.push(st0.cur));
                        }
                    }
                    let finished_deps = deps;
                    deps = Vec::new();
                    let ghost rules0 = rules@;
                    let ghost tv = t@;
                    let ghost fin_dv = finished_deps@.map_values(|d: Vec<u8>| d@);
                    rules.push(DepRule { target: t, deps: finished_deps });
                    target = None;
                    pre = None;
                    proof {
                        assert(deps@.map_values(|d: Vec<u8>| d@) =~= Seq::<Seq<u8>>::empty());
                        assert(rules_view(rules@)[rules0.len() as int] == (tv, fin_dv));
                        assert forall|j: int| 0 <= j < rules0.len() implies rules_view(rules@)[j]
                            == rules_view(rules0)[j] by {
                            assert(rules@[j] == rules0[j]);
                        }
                        assert(cur@ =~= Seq::<u8>::empty());
                        assert(rules_view(rules@) =~= step_newline(st0).rules);
                    }
                },
            }
            proof {
                assert(state_of(rules@, pre, target, cur, deps@, failed) == step_newline(st0));
            }
            i = i + 1;
        } else if b == 32 || b == 9 || b == 13 {
            if cur.len() > 0 {
                match &target {
                    None => {
                        if pre.is_some() {
                            failed = true;
                        } else {
                            let tok = cur;
                            cur = Vec::new();
                            pre = Some(tok);
                        }
                    },
                    Some(_) => {
                        let tok = cur;
                        cur = Vec::new();
                        deps.push(tok);
                        proof {
                            assert(deps@.map_values(|d: Vec<u8>| d@) =~= st0.deps.push(st0.cur));
                        }
                    },
                }
            }
            proof {
                assert(state_of(rules@, pre, target, cur, deps@, failed) == step_space(st0));
            }
            i = i + 1;
        } else if b == 58 {
            match &target {
                Some(_) => {
                    cur.push(58);
                },
                None => {
                    if cur.len() > 0 {
                        if pre.is_some() {
                            failed = true;
                        } else {
                            let tok = cur;
                            cur = Vec::new();
                            target = Some(tok);
                        }
                    } else {
                        match pre {
                            Some(p) => {
                                target = Some(p);
                                pre = None;
                            },
                            None => {
                                pre = None;
                                failed = true;
                            },
                        }
                    }
                },
            }
            proof {
                assert(state_of(rules@, pre, target, cur, deps@, failed) == step_colon(st0));
            }
            i = i + 1;
        } else {
            cur.push(b);
            proof {
                assert(state_of(rules@, pre, target, cur, deps@, failed) == step_byte(st0, b));
            }
            i = i + 1;
        }
    }
    proof {
        assert(text@.skip(n as int) =~= Seq::<u8>::empty());
    }
    let ghost st0 = state_of(rules@, pre, target, cur, deps@, failed);
    if failed {
        return None;
    }
    match target {
        None => {
            if cur.len() > 0 || pre.is_some() {
                return None;
            }
        },
        Some(t) => {
            if cur.len() > 0 {
                let tok = cur;
                cur = Vec::new();
                deps.push(tok);
                proof {
                    assert(deps@.map_values(|d: Vec<u8>| d@) =~= st0.deps.push(st0.cur));
                }
            }
            let finished_deps = deps;
            let ghost rules0 = rules@;
            let ghost tv = t@;
            let ghost fin_dv = finished_deps@.map_values(|d: Vec<u8>| d@);
            rules.push(DepRule { target: t, deps: finished_deps });
            proof {
                assert(rules_view(rules@)[rules0.len() as int] == (tv, fin_dv));
                assert forall|j: int| 0 <= j < rules0.len() implies rules_view(rules@)[j]
                    == rules_view(rules0)[j] by {
                    assert(rules@[j] == rules0[j]);
                }
                assert(rules_view(rules@) =~= step_newline(st0).rules);
            }
        },
    }
    Some(rules)
}

/// True when the two byte strings are equal.
fn bytes_eq(a: &Vec<u8>, b: &Vec<u8>) -> (r: bool)
    ensures
        r == (a@ == b@),
{
    if a.len() != b.len() {
        return false;
    }
    let mut i: usize = 0;
    while i < a.len()
        invariant
            a@.len() == b@.len(),
            i <= a@.len(),
            forall|j: int| 0 <= j < i ==> a@[j] == b@[j],
        decreases a@.len() - i,
    {
        if a[i] != b[i] {
            return false;
        }
        i += 1;
    }
    proof {
        assert(a@ =~= b@);
    }
    true
}

/// The prerequisites of the first rule for `target`, if any.
pub open spec fn spec_find_deps(rules: Seq<(Seq<u8>, Seq<Seq<u8>>)>, target: Seq<u8>) -> Option<
    Seq<Seq<u8>>,
>
    decreases rules.len(),
{
    if rules.len() == 0 {
        None
    } else if rules[0].0 == target {
        Some(rules[0].1)
    } else {
        spec_find_deps(rules.drop_first(), target)
    }
}

proof fn lemma_find_at(rules: Seq<(Seq<u8>, Seq<Seq<u8>>)>, target: Seq<u8>, i: int)
    requires
        0 <= i < rules.len(),
        rules[i].0 == target,
        forall|j: int| 0 <= j < i ==> (#[trigger] rules[j]).0 != target,
    ensures
        spec_find_deps(rules, target) == Some(rules[i].1),
    decreases i,
{
    if i > 0 {
        assert(rules.drop_first()[i - 1] == rules[i]);
        assert(forall|j: int| 0 <= j < i - 1 ==> (#[trigger] rules.drop_first()[j]).0 != target);
        lemma_find_at(rules.drop_first(), target, i - 1);
    }
}

proof fn lemma_find_none(rules: Seq<(Seq<u8>, Seq<Seq<u8>>)>, target: Seq<u8>)
    requires
        forall|j: int| 0 <= j < rules.len() ==> (#[trigger] rules[j]).0 != target,
    ensures
        spec_find_deps(rules, target) is None,
    decreases rules.len(),
{
    if rules.len() > 0 {
        assert(forall|j: int|
            0 <= j < rules.drop_first().len() ==> (#[trigger] rules.drop_first()[j]).0 != target);
        lemma_find_none(rules.drop_first(), target);
    }
}

/// The prerequisites recorded for `target`: those of the first rule that
/// names it, or nothing when no rule does.
pub fn find_deps<'a>(rules: &'a Vec<DepRule>, target: &Vec<u8>) -> (r: Option<&'a Vec<Vec<u8>>>)
    ensures
        match r {
            Some(deps) => spec_find_deps(rules_view(rules@), target@) == Some(
                deps@.map_values(|d: Vec<u8>| d@),
            ),
            None => spec_find_deps(rules_view(rules@), target@) is None,
        },
{
    let mut i: usize = 0;
    while i < rules.len()
        invariant
            i <= rules@.len(),
            forall|j: int| 0 <= j < i ==> (#[trigger] rules_view(rules@)[j]).0 != target@,
        decreases rules@.len() - i,
    {
        if bytes_eq(&rules[i].target, target) {
            proof {
                lemma_find_at(rules_view(rules@), target@, i as int);
            }
            return Some(&rules[i].deps);
        }
        proof {
            assert(rules_view(rules@)[i as int].0 == rules@[i as int].target@);
        }
        i += 1;
    }
    proof {
        lemma_find_none(rules_view(rules@), target@);
    }
    None
}

/// The whole staleness decision, from gathered facts: a missing
/// dependency file or a missing output is stale outright; otherwise the
/// output stands exactly when every recorded prerequisite still exists
/// and none is newer than the dependency file.
pub fn up_to_date_decision(
    dependency_file_exists: bool,
    output_exists: bool,
    prereq_times: &Vec<Option<u64>>,
    base_time: u64,
) -> (r: bool)
    ensures
        r == (dependency_file_exists && output_exists && (forall|i: int|
            0 <= i < prereq_times@.len() ==> (#[trigger] prereq_times@[i]) is Some
                && prereq_times@[i]->Some_0 <= base_time)),
{
    if !dependency_file_exists || !output_exists {
        return false;
    }
    is_up_to_date(prereq_times, base_time)
}

/// Decides the staleness check from gathered facts: with the dependency
/// file as the baseline, the output is up to date exactly when every
/// prerequisite still exists and none is newer than the baseline. A
/// missing prerequisite is `None`; an existing one carries its
/// modification time.
pub fn is_up_to_date(prereq_times: &Vec<Option<u64>>, base_time: u64) -> (r: bool)
    ensures
        r == (forall|i: int|
            0 <= i < prereq_times@.len() ==> (#[trigger] prereq_times@[i]) is Some
                && prereq_times@[i]->Some_0 <= base_time),
{
    let mut i: usize = 0;
    while i < prereq_times.len()
        invariant
            i <= prereq_times@.len(),
            forall|j: int|
                0 <= j < i ==> (#[trigger] prereq_times@[j]) is Some && prereq_times@[j]->Some_0
                    <= base_time,
        decreases prereq_times@.len() - i,
    {
        match prereq_times[i] {
            None => {
                return false;
            },
            Some(t) => {
                if t > base_time {
                    return false;
                }
            },
        }
        i += 1;
    }
    true
}

} // verus!
