//! Aliases: the rules that hold for one file, in the order in which they
//! are tried, and the resolution of an import specifier through them.

use crate::config::{Alias, AliasView};
use crate::path_resolver::{
    covers, holds, invalid_path_message, resolved, virtual_path, PathResolver,
};
use crate::paths::{joined, path_join};
use crate::pattern_matcher::{
    apply_components_to_template, captures, count_wildcards, fill,
    lemma_one_component_for_each_wildcard, lemma_split_len, pattern_matches, values_of,
    wildcard,
    CompiledPattern,
};
use crate::text::{chars_of, count_char, glue, glue3, split, views};
use vstd::prelude::*;

verus! {

/// A rule with its pattern compiled.
pub struct CompiledAlias {
    /// The rule as it was declared.
    pub alias: Alias,
    /// Its pattern, split at the wildcards.
    pub compiled_pattern: CompiledPattern,
    /// Its place among the declared rules, counted from 0.
    pub declared: usize,
}

/// The rules that hold for one file, the more specific first, and the
/// resolver of paths that they resolve through.
pub struct AliasResolver {
    compiled_aliases: Vec<CompiledAlias>,
    path_resolver: PathResolver,
}

/// What resolving an import specifier comes to, as far as it can be said
/// without looking at the disk.
#[derive(Debug, Clone, PartialEq)]
pub enum Resolution {
    /// No rule matches the specifier.
    Unmatched,
    /// Whether this file exists decides how to go on.
    Probe(String),
    /// The specifier stands for this file.
    Resolved(String),
}

/// A resolution with its path as a sequence of characters.
pub enum ResolutionView {
    Unmatched,
    Probe(Seq<char>),
    Resolved(Seq<char>),
}

impl View for Resolution {
    type V = ResolutionView;

    open spec fn view(&self) -> ResolutionView {
        match self {
            Resolution::Unmatched => ResolutionView::Unmatched,
            Resolution::Probe(p) => ResolutionView::Probe(p@),
            Resolution::Resolved(p) => ResolutionView::Resolved(p@),
        }
    }
}

/// The number of wildcards in the pattern of a rule.
pub open spec fn specificity(rule: AliasView) -> nat {
    count_char(rule.pattern, wildcard())
}

/// Whether one of the first `n` directories of `context` holds the file
/// `source_file`. Each directory is joined to `cwd` and mapped into the
/// virtual file system as seen from `resolver_cwd`; one that has no place
/// there holds no file.
pub open spec fn in_context(
    context: Seq<Seq<char>>,
    resolver_cwd: Seq<char>,
    cwd: Seq<char>,
    source_file: Seq<char>,
    n: int,
) -> bool
    decreases n,
{
    if n <= 0 {
        false
    } else {
        in_context(context, resolver_cwd, cwd, source_file, n - 1) || match virtual_path(
            resolver_cwd,
            joined(cwd, context[n - 1]),
        ) {
            Some(directory) => covers(directory, source_file),
            None => false,
        }
    }
}

/// Whether a rule holds for the file `source_file`: one without a context
/// holds for every file.
pub open spec fn included(
    rule: AliasView,
    resolver_cwd: Seq<char>,
    cwd: Seq<char>,
    source_file: Seq<char>,
) -> bool {
    match rule.context {
        None => true,
        Some(context) => in_context(
            context,
            resolver_cwd,
            cwd,
            source_file,
            context.len() as int,
        ),
    }
}

/// Whether a template has as many wildcards as the pattern `pattern`, and
/// so takes the components of a path that the pattern matches.
pub open spec fn template_fits(pattern: Seq<char>, template: Seq<char>) -> bool {
    count_char(template, wildcard()) == count_char(pattern, wildcard())
}

/// The first of the first `n` templates of a rule that does not fit its
/// pattern.
pub open spec fn first_misfit(rule: AliasView, n: int) -> Option<int>
    decreases n,
{
    if n <= 0 {
        None
    } else {
        match first_misfit(rule, n - 1) {
            Some(k) => Some(k),
            None => if template_fits(rule.pattern, rule.paths[n - 1]) {
                None
            } else {
                Some(n - 1)
            },
        }
    }
}

/// The message for a rule with a template that does not fit its pattern.
pub open spec fn misfit_message(pattern: Seq<char>, template: Seq<char>) -> Seq<char> {
    "Failed to compile alias pattern '"@ + pattern + "': path template '"@ + template
        + "' does not take the components of the pattern"@
}

/// `order` with the rule `index` behind the rules that have no more
/// wildcards than it has, and before the others.
pub open spec fn with_rule(order: Seq<int>, index: int, rules: Seq<AliasView>) -> Seq<int>
    decreases order.len(),
{
    if order.len() == 0 {
        seq![index]
    } else if specificity(rules[order.last()]) <= specificity(rules[index]) {
        order.push(index)
    } else {
        with_rule(order.drop_last(), index, rules).push(order.last())
    }
}

/// The order in which the first `n` declared rules are tried for the file
/// `source_file`, each rule by its place in the declaration: the rules that
/// hold for the file, those with fewer wildcards first, and of two with as
/// many wildcards the one declared first. A rule that holds for the file and
/// has a template that does not fit its pattern fails the whole.
pub open spec fn evaluation_order(
    rules: Seq<AliasView>,
    resolver_cwd: Seq<char>,
    cwd: Seq<char>,
    source_file: Seq<char>,
    n: int,
) -> Result<Seq<int>, Seq<char>>
    decreases n,
{
    if n <= 0 {
        Ok(Seq::empty())
    } else {
        match evaluation_order(rules, resolver_cwd, cwd, source_file, n - 1) {
            Err(message) => Err(message),
            Ok(order) => {
                let rule = rules[n - 1];
                if !included(rule, resolver_cwd, cwd, source_file) {
                    Ok(order)
                } else {
                    match first_misfit(rule, rule.paths.len() as int) {
                        Some(k) => Err(misfit_message(rule.pattern, rule.paths[k])),
                        None => Ok(with_rule(order, n - 1, rules)),
                    }
                }
            },
        }
    }
}

/// The rules of `compiled`, each with its place in the declaration.
pub open spec fn rule_views(compiled: Seq<CompiledAlias>) -> Seq<(int, AliasView)> {
    Seq::new(compiled.len(), |i: int| (compiled[i].declared as int, compiled[i].alias@))
}

/// The first of the first `n` rules whose pattern `path` matches.
pub open spec fn first_match(rules: Seq<(int, AliasView)>, path: Seq<char>, n: int) -> Option<int>
    decreases n,
{
    if n <= 0 {
        None
    } else {
        match first_match(rules, path, n - 1) {
            Some(k) => Some(k),
            None => if pattern_matches(split(rules[n - 1].1.pattern, wildcard()), path) {
                Some(n - 1)
            } else {
                None
            },
        }
    }
}

/// The message for a specifier that a rule matches and no file stands for.
pub open spec fn not_found_message(import_path: Seq<char>) -> Seq<char> {
    "E_BARREL_FILE_NOT_FOUND: Could not resolve barrel file for import alias "@ + import_path
}

/// The path that template `template` of a rule names for `import_path`,
/// resolved through the links.
pub open spec fn candidate(
    rule: AliasView,
    template: Seq<char>,
    links: Seq<(Seq<char>, Seq<char>)>,
    resolver_cwd: Seq<char>,
    import_path: Seq<char>,
) -> Seq<char> {
    resolved(
        links,
        resolver_cwd,
        fill(template, values_of(captures(split(rule.pattern, wildcard()), import_path))),
    )
}

/// What resolving comes to from template `k` of the matching rule on, when
/// `probes` says of each earlier candidate whether it exists: a candidate
/// with no place in the virtual file system fails; the first candidate whose
/// existence is not known is to be probed; the first that exists is the
/// file; with no template left there is no file.
pub open spec fn resolution_from(
    rule: AliasView,
    links: Seq<(Seq<char>, Seq<char>)>,
    resolver_cwd: Seq<char>,
    import_path: Seq<char>,
    probes: Seq<bool>,
    k: int,
) -> Result<ResolutionView, Seq<char>>
    decreases rule.paths.len() - k,
{
    if k < 0 || k >= rule.paths.len() {
        Err(not_found_message(import_path))
    } else {
        let path = candidate(rule, rule.paths[k], links, resolver_cwd, import_path);
        match virtual_path(resolver_cwd, path) {
            None => Err(invalid_path_message(path)),
            Some(file) => if k >= probes.len() {
                Ok(ResolutionView::Probe(file))
            } else if probes[k] {
                Ok(ResolutionView::Resolved(file))
            } else {
                resolution_from(rule, links, resolver_cwd, import_path, probes, k + 1)
            },
        }
    }
}

/// What resolving `import_path` through `rules` comes to: see
/// [`resolution_from`] for the rule that matches first.
pub open spec fn resolution(
    rules: Seq<(int, AliasView)>,
    links: Seq<(Seq<char>, Seq<char>)>,
    resolver_cwd: Seq<char>,
    import_path: Seq<char>,
    probes: Seq<bool>,
) -> Result<ResolutionView, Seq<char>> {
    match first_match(rules, import_path, rules.len() as int) {
        None => Ok(ResolutionView::Unmatched),
        Some(k) => resolution_from(rules[k].1, links, resolver_cwd, import_path, probes, 0),
    }
}

/// The views of the rules of a configuration.
pub open spec fn declared_rules(aliases: Option<Vec<Alias>>) -> Seq<AliasView> {
    match aliases {
        Some(list) => views(list@),
        None => Seq::empty(),
    }
}

fn context_holds(
    context: &Vec<String>,
    path_resolver: &PathResolver,
    cwd: &str,
    source_file: &str,
) -> (r: bool)
    ensures
        r == in_context(
            views(context@),
            path_resolver.cwd(),
            cwd@,
            source_file@,
            context@.len() as int,
        ),
{
    let file = chars_of(source_file);
    let mut i: usize = 0;
    while i < context.len()
        invariant
            i <= context.len(),
            file@ == source_file@,
            !in_context(views(context@), path_resolver.cwd(), cwd@, source_file@, i as int),
        decreases context.len() - i,
    {
        assert(views(context@)[i as int] == context@[i as int]@);
        let joined_path = path_join(cwd, context[i].as_str());
        if let Ok(directory) = path_resolver.to_virtual_path(joined_path.as_str()) {
            let d = chars_of(directory.as_str());
            if holds(&d, &file) {
                proof {
                    lemma_in_context_stays(
                        views(context@),
                        path_resolver.cwd(),
                        cwd@,
                        source_file@,
                        i + 1,
                        context@.len() as int,
                    );
                }
                return true;
            }
        }
        i += 1;
    }
    false
}

/// A context that holds a file by one of its first `n` directories holds it
/// by its first `m`, for every `m` from `n` on.
pub proof fn lemma_in_context_stays(
    context: Seq<Seq<char>>,
    resolver_cwd: Seq<char>,
    cwd: Seq<char>,
    source_file: Seq<char>,
    n: int,
    m: int,
)
    requires
        n <= m,
        in_context(context, resolver_cwd, cwd, source_file, n),
    ensures
        in_context(context, resolver_cwd, cwd, source_file, m),
    decreases m - n,
{
    if n < m {
        lemma_in_context_stays(context, resolver_cwd, cwd, source_file, n, m - 1);
    }
}

fn misfit_of(alias: &Alias, slots: usize) -> (r: Option<usize>)
    requires
        slots == count_char(alias.pattern@, wildcard()),
    ensures
        r matches Some(k) ==> k < alias.paths.len(),
        match r {
            Some(k) => first_misfit(alias@, alias.paths@.len() as int) == Some(k as int),
            None => first_misfit(alias@, alias.paths@.len() as int) is None,
        },
{
    let mut i: usize = 0;
    while i < alias.paths.len()
        invariant
            i <= alias.paths.len(),
            slots == count_char(alias.pattern@, wildcard()),
            first_misfit(alias@, i as int) is None,
        decreases alias.paths.len() - i,
    {
        assert(alias@.paths[i as int] == alias.paths@[i as int]@);
        if count_wildcards(alias.paths[i].as_str()) != slots {
            proof {
                lemma_first_misfit_stays(alias@, i + 1, alias.paths@.len() as int);
            }
            return Some(i);
        }
        i += 1;
    }
    None
}

/// A misfit among the first `n` templates is the first misfit among the first
/// `m`, for every `m` from `n` on.
pub proof fn lemma_first_misfit_stays(rule: AliasView, n: int, m: int)
    requires
        n <= m,
        first_misfit(rule, n) is Some,
    ensures
        first_misfit(rule, m) == first_misfit(rule, n),
    decreases m - n,
{
    if n < m {
        lemma_first_misfit_stays(rule, n, m - 1);
    }
}

/// The places in the declaration of the rules of `compiled`.
pub open spec fn places(compiled: Seq<CompiledAlias>) -> Seq<int> {
    Seq::new(compiled.len(), |i: int| compiled[i].declared as int)
}

/// Each rule of `compiled` is the declared rule of its place, with the
/// pattern of that rule compiled and templates that fit it.
pub open spec fn compiled_from(compiled: Seq<CompiledAlias>, rules: Seq<AliasView>) -> bool {
    forall|i: int|
        0 <= i < compiled.len() ==> {
            &&& 0 <= (#[trigger] compiled[i]).declared < rules.len()
            &&& compiled[i].alias@ == rules[compiled[i].declared as int]
            &&& well_compiled(compiled[i])
        }
}

/// The pattern of the rule is compiled, and its templates fit it.
pub open spec fn well_compiled(rule: CompiledAlias) -> bool {
    &&& rule.compiled_pattern.literals() == split(rule.alias@.pattern, wildcard())
    &&& rule.compiled_pattern.wildcard_count == specificity(rule.alias@)
    &&& first_misfit(rule.alias@, rule.alias@.paths.len() as int) is None
}

impl AliasResolver {
    /// The rules in the order in which they are tried.
    pub closed spec fn compiled(&self) -> Seq<CompiledAlias> {
        self.compiled_aliases@
    }

    /// The working directory of the resolver of paths.
    pub closed spec fn resolver_cwd(&self) -> Seq<char> {
        self.path_resolver.cwd()
    }

    /// The links of the resolver of paths.
    pub closed spec fn links(&self) -> Seq<(Seq<char>, Seq<char>)> {
        self.path_resolver.links()
    }

    #[verifier::type_invariant]
    closed spec fn all_well_compiled(&self) -> bool {
        forall|i: int|
            0 <= i < self.compiled_aliases@.len() ==> well_compiled(
                #[trigger] self.compiled_aliases@[i],
            )
    }

    /// The rules for the file `source_file`: see [`evaluation_order`].
    /// `path_resolver` maps the directories of a context, each joined to
    /// `cwd`, into the virtual file system.
    pub fn new(
        aliases: &Option<Vec<Alias>>,
        path_resolver: &PathResolver,
        cwd: &str,
        source_file: &str,
    ) -> (r: Result<Self, String>)
        ensures
            match evaluation_order(
                declared_rules(*aliases),
                path_resolver.cwd(),
                cwd@,
                source_file@,
                declared_rules(*aliases).len() as int,
            ) {
                Ok(order) => {
                    &&& r is Ok
                    &&& places(r->Ok_0.compiled()) == order
                    &&& compiled_from(r->Ok_0.compiled(), declared_rules(*aliases))
                    &&& rule_views(r->Ok_0.compiled()) == rules_in_order(
                        order,
                        declared_rules(*aliases),
                    )
                    &&& r->Ok_0.resolver_cwd() == path_resolver.cwd()
                    &&& r->Ok_0.links() == path_resolver.links()
                },
                Err(message) => r is Err && r->Err_0@ == message,
            },
    {
        let mut compiled_aliases: Vec<CompiledAlias> = Vec::new();
        let ghost rules = declared_rules(*aliases);
        if let Some(list) = aliases {
            let mut i: usize = 0;
            assert(places(compiled_aliases@) =~= Seq::<int>::empty());
            while i < list.len()
                invariant
                    i <= list.len(),
                    rules == views(list@),
                    rules == declared_rules(*aliases),
                    evaluation_order(rules, path_resolver.cwd(), cwd@, source_file@, i as int)
                        == Ok::<Seq<int>, Seq<char>>(places(compiled_aliases@)),
                    compiled_from(compiled_aliases@, rules),
                    forall|j: int|
                        0 <= j < compiled_aliases@.len() ==> (
                        #[trigger] compiled_aliases@[j]).declared < i,
                decreases list.len() - i,
            {
                let alias = &list[i];
                assert(rules[i as int] == alias@);
                let should_include = match &alias.context {
                    None => true,
                    Some(context) => context_holds(context, path_resolver, cwd, source_file),
                };
                assert(should_include == included(
                    alias@,
                    path_resolver.cwd(),
                    cwd@,
                    source_file@,
                ));
                if should_include {
                    let compiled_pattern = match CompiledPattern::new(alias.pattern.as_str()) {
                        Ok(pattern) => pattern,
                        Err(message) => {
                            return Err(message);
                        },
                    };
                    let slots = compiled_pattern.wildcard_count;
                    match misfit_of(alias, slots) {
                        Some(k) => {
                            assert(alias@.paths[k as int] == alias.paths@[k as int]@);
                            assert(evaluation_order(
                                rules,
                                path_resolver.cwd(),
                                cwd@,
                                source_file@,
                                i + 1,
                            ) == Err::<Seq<int>, Seq<char>>(
                                misfit_message(alias@.pattern, alias@.paths[k as int]),
                            ));
                            proof {
                                lemma_evaluation_fails_for_good(
                                    rules,
                                    path_resolver.cwd(),
                                    cwd@,
                                    source_file@,
                                    i + 1,
                                    rules.len() as int,
                                );
                            }
                            let head = glue3(
                                "Failed to compile alias pattern '",
                                alias.pattern.as_str(),
                                "': path template '",
                            );
                            return Err(
                                glue3(
                                    head.as_str(),
                                    alias.paths[k].as_str(),
                                    "' does not take the components of the pattern",
                                ),
                            );
                        },
                        None => {},
                    }
                    let entry = CompiledAlias {
                        alias: alias.duplicate(),
                        compiled_pattern,
                        declared: i,
                    };
                    let ghost before = compiled_aliases@;
                    let mut at: usize = compiled_aliases.len();
                    assert(places(before).take(at as int) =~= places(before));
                    assert(places(before).skip(at as int) =~= Seq::<int>::empty());
                    while at > 0 && compiled_aliases[at - 1].compiled_pattern.wildcard_count
                        > entry.compiled_pattern.wildcard_count
                        invariant
                            at <= compiled_aliases.len(),
                            compiled_aliases@ == before,
                            i < rules.len(),
                            rules[i as int] == entry.alias@,
                            entry.compiled_pattern.wildcard_count == specificity(entry.alias@),
                            compiled_from(before, rules),
                            with_rule(places(before), i as int, rules) == with_rule(
                                places(before).take(at as int),
                                i as int,
                                rules,
                            ) + places(before).skip(at as int),
                        decreases at,
                    {
                        assert(places(before).take(at as int).drop_last() =~= places(before).take(
                            at - 1,
                        ));
                        assert(seq![places(before)[at - 1]] + places(before).skip(at as int)
                            =~= places(before).skip(at - 1));
                        at -= 1;
                    }
                    proof {
                        let head = places(before).take(at as int);
                        if at > 0 {
                            assert(head.last() == places(before)[at - 1]);
                            assert(rules[head.last()] == before[at - 1].alias@);
                        }
                        assert(with_rule(head, i as int, rules) =~= head.push(i as int));
                    }
                    compiled_aliases.insert(at, entry);
                    assert(places(compiled_aliases@) =~= places(before).take(at as int).push(
                        i as int,
                    ) + places(before).skip(at as int));
                    assert(places(compiled_aliases@) == with_rule(places(before), i as int, rules));
                }
                i += 1;
            }
        }
        assert(rule_views(compiled_aliases@) =~= rules_in_order(places(compiled_aliases@), rules));
        Ok(AliasResolver { compiled_aliases, path_resolver: path_resolver.duplicate() })
    }

    /// The resolver of paths that the rules resolve through.
    pub fn path_resolver(&self) -> (r: &PathResolver)
        ensures
            r.cwd() == self.resolver_cwd(),
            r.links() == self.links(),
    {
        &self.path_resolver
    }

    /// The rules in the order in which they are tried.
    pub fn compiled_aliases(&self) -> (r: &Vec<CompiledAlias>)
        ensures
            r@ == self.compiled(),
    {
        &self.compiled_aliases
    }

    /// The rule that resolves `import_path`: the first in the order of
    /// trying whose pattern matches.
    pub fn match_pattern(&self, import_path: &str) -> (r: Option<&CompiledAlias>)
        ensures
            match first_match(
                rule_views(self.compiled()),
                import_path@,
                self.compiled().len() as int,
            ) {
                Some(k) => r == Some(&self.compiled()[k]),
                None => r is None,
            },
    {
        match self.matching_rule(import_path) {
            Some(k) => Some(&self.compiled_aliases[k]),
            None => None,
        }
    }

    fn matching_rule(&self, import_path: &str) -> (r: Option<usize>)
        ensures
            r matches Some(k) ==> k < self.compiled_aliases@.len(),
            match r {
                Some(k) => first_match(
                    rule_views(self.compiled_aliases@),
                    import_path@,
                    self.compiled_aliases@.len() as int,
                ) == Some(k as int),
                None => first_match(
                    rule_views(self.compiled_aliases@),
                    import_path@,
                    self.compiled_aliases@.len() as int,
                ) is None,
            },
    {
        proof {
            use_type_invariant(self);
        }
        let ghost rules = rule_views(self.compiled_aliases@);
        let mut i: usize = 0;
        while i < self.compiled_aliases.len()
            invariant
                i <= self.compiled_aliases.len(),
                rules == rule_views(self.compiled_aliases@),
                forall|j: int|
                    0 <= j < self.compiled_aliases@.len() ==> well_compiled(
                        #[trigger] self.compiled_aliases@[j],
                    ),
                first_match(rules, import_path@, i as int) is None,
            decreases self.compiled_aliases.len() - i,
        {
            assert(well_compiled(self.compiled_aliases@[i as int]));
            if self.compiled_aliases[i].compiled_pattern.matches(import_path) {
                proof {
                    lemma_first_match_stays(rules, import_path@, i + 1, rules.len() as int);
                }
                return Some(i);
            }
            i += 1;
        }
        None
    }

    /// Resolves `import_path` as far as `probes` lets it: see
    /// [`resolution`]. `probes` says of the candidates of the matching rule,
    /// in the order of its templates, whether each exists; it may be shorter
    /// than the list of templates, and is empty at the first call. The
    /// caller looks for the file of a `Probe`, adds what it found to
    /// `probes`, and calls again.
    pub fn resolve(&self, import_path: &str, probes: &Vec<bool>) -> (r: Result<Resolution, String>)
        ensures
            match resolution(
                rule_views(self.compiled()),
                self.links(),
                self.resolver_cwd(),
                import_path@,
                probes@,
            ) {
                Ok(resolution) => r is Ok && r->Ok_0@ == resolution,
                Err(message) => r is Err && r->Err_0@ == message,
            },
    {
        proof {
            use_type_invariant(self);
        }
        let found = self.matching_rule(import_path);
        let at = match found {
            Some(at) => at,
            None => {
                return Ok(Resolution::Unmatched);
            },
        };
        let compiled_alias = &self.compiled_aliases[at];
        assert(well_compiled(*compiled_alias));
        let ghost rule = compiled_alias.alias@;
        assert(rule_views(self.compiled_aliases@)[at as int].1 == rule);
        let components = compiled_alias.compiled_pattern.extract_components(import_path);
        proof {
            lemma_first_match_matches(
                rule_views(self.compiled_aliases@),
                import_path@,
                self.compiled_aliases@.len() as int,
            );
            let parts = split(rule.pattern, wildcard());
            lemma_split_len(rule.pattern, wildcard());
            if parts.len() >= 2 {
                lemma_one_component_for_each_wildcard(
                    parts,
                    1,
                    import_path@,
                    parts[0].len() as int,
                );
            }
        }
        let mut k: usize = 0;
        while k < compiled_alias.alias.paths.len()
            invariant
                k <= compiled_alias.alias.paths.len(),
                rule == compiled_alias.alias@,
                well_compiled(*compiled_alias),
                components@ == captures(split(rule.pattern, wildcard()), import_path@),
                components@.len() == count_char(rule.pattern, wildcard()),
                resolution(
                    rule_views(self.compiled()),
                    self.links(),
                    self.resolver_cwd(),
                    import_path@,
                    probes@,
                ) == resolution_from(
                    rule,
                    self.path_resolver.links(),
                    self.path_resolver.cwd(),
                    import_path@,
                    probes@,
                    k as int,
                ),
            decreases compiled_alias.alias.paths.len() - k,
        {
            let template = compiled_alias.alias.paths[k].as_str();
            assert(rule.paths[k as int] == template@);
            proof {
                lemma_no_misfit(rule, rule.paths.len() as int, k as int);
            }
            let filled = apply_components_to_template(template, &components);
            let resolved_path = self.path_resolver.resolve_path(filled.as_str());
            let file = match self.path_resolver.to_virtual_path(resolved_path.as_str()) {
                Ok(file) => file,
                Err(message) => {
                    return Err(message);
                },
            };
            if k >= probes.len() {
                return Ok(Resolution::Probe(file));
            }
            if probes[k] {
                return Ok(Resolution::Resolved(file));
            }
            k += 1;
        }
        Err(
            glue(
                "E_BARREL_FILE_NOT_FOUND: Could not resolve barrel file for import alias ",
                import_path,
            ),
        )
    }
}

/// A match among the first `n` rules is the first match among the first
/// `m`, for every `m` from `n` on.
pub proof fn lemma_first_match_stays(rules: Seq<(int, AliasView)>, path: Seq<char>, n: int, m: int)
    requires
        n <= m,
        first_match(rules, path, n) is Some,
    ensures
        first_match(rules, path, m) == first_match(rules, path, n),
    decreases m - n,
{
    if n < m {
        lemma_first_match_stays(rules, path, n, m - 1);
    }
}

/// The first match matches, and no rule before it does.
pub proof fn lemma_first_match_matches(rules: Seq<(int, AliasView)>, path: Seq<char>, n: int)
    ensures
        match first_match(rules, path, n) {
            Some(k) => {
                &&& 0 <= k < n
                &&& pattern_matches(split(rules[k].1.pattern, wildcard()), path)
                &&& forall|j: int|
                    0 <= j < k ==> !pattern_matches(
                        split((#[trigger] rules[j]).1.pattern, wildcard()),
                        path,
                    )
            },
            None => forall|j: int|
                0 <= j < n ==> !pattern_matches(
                    split((#[trigger] rules[j]).1.pattern, wildcard()),
                    path,
                ),
        },
    decreases n,
{
    if n > 0 {
        lemma_first_match_matches(rules, path, n - 1);
    }
}

/// Where no template of the first `n` is a misfit, each of them fits.
pub proof fn lemma_no_misfit(rule: AliasView, n: int, k: int)
    requires
        0 <= k < n,
        first_misfit(rule, n) is None,
    ensures
        template_fits(rule.pattern, rule.paths[k]),
    decreases n,
{
    if k < n - 1 {
        lemma_no_misfit(rule, n - 1, k);
    }
}

/// A failure among the first `n` rules is the failure of the first `m`, for
/// every `m` from `n` on.
pub proof fn lemma_evaluation_fails_for_good(
    rules: Seq<AliasView>,
    resolver_cwd: Seq<char>,
    cwd: Seq<char>,
    source_file: Seq<char>,
    n: int,
    m: int,
)
    requires
        n <= m,
        evaluation_order(rules, resolver_cwd, cwd, source_file, n) is Err,
    ensures
        evaluation_order(rules, resolver_cwd, cwd, source_file, m) == evaluation_order(
            rules,
            resolver_cwd,
            cwd,
            source_file,
            n,
        ),
    decreases m - n,
{
    if n < m {
        lemma_evaluation_fails_for_good(rules, resolver_cwd, cwd, source_file, n, m - 1);
    }
}


/// The rule `a` is tried before the rule `b`: it has fewer wildcards, or as
/// many and the earlier place in the declaration.
pub open spec fn tried_before(a: int, b: int, rules: Seq<AliasView>) -> bool {
    ||| specificity(rules[a]) < specificity(rules[b])
    ||| specificity(rules[a]) == specificity(rules[b]) && a < b
}

/// Each rule of `order` is tried before the rules behind it.
pub open spec fn in_trying_order(order: Seq<int>, rules: Seq<AliasView>) -> bool {
    forall|a: int, b: int|
        0 <= a < b < order.len() ==> tried_before(#[trigger] order[a], #[trigger] order[b], rules)
}

/// Putting a rule that was declared after all of `order` into it keeps the
/// order of trying, and adds this rule and no other.
pub proof fn lemma_with_rule(order: Seq<int>, index: int, rules: Seq<AliasView>)
    requires
        in_trying_order(order, rules),
        forall|i: int| 0 <= i < order.len() ==> 0 <= #[trigger] order[i] < index,
    ensures
        in_trying_order(with_rule(order, index, rules), rules),
        with_rule(order, index, rules).len() == order.len() + 1,
        forall|x: int|
            #[trigger] with_rule(order, index, rules).contains(x) <==> order.contains(x) || x
                == index,
    decreases order.len(),
{
    let out = with_rule(order, index, rules);
    if order.len() == 0 {
        assert(out[0] == index);
        assert forall|x: int| out.contains(x) <==> order.contains(x) || x == index by {
            if x == index {
                assert(out[0] == x);
            }
        }
    } else if specificity(rules[order.last()]) <= specificity(rules[index]) {
        assert forall|a: int, b: int| 0 <= a < b < out.len() implies tried_before(
            #[trigger] out[a],
            #[trigger] out[b],
            rules,
        ) by {
            if b == order.len() {
                assert(out[a] == order[a]);
                if a < order.len() - 1 {
                    assert(tried_before(order[a], order[order.len() - 1], rules));
                }
            } else {
                assert(out[a] == order[a] && out[b] == order[b]);
            }
        }
        assert forall|x: int| out.contains(x) <==> order.contains(x) || x == index by {
            if x == index {
                assert(out[order.len() as int] == x);
            }
            if order.contains(x) {
                let i = choose|i: int| 0 <= i < order.len() && order[i] == x;
                assert(out[i] == x);
            }
            if out.contains(x) {
                let i = choose|i: int| 0 <= i < out.len() && out[i] == x;
                if i < order.len() {
                    assert(order[i] == x);
                }
            }
        }
    } else {
        let init = order.drop_last();
        let inner = with_rule(init, index, rules);
        assert forall|a: int, b: int| 0 <= a < b < init.len() implies tried_before(
            #[trigger] init[a],
            #[trigger] init[b],
            rules,
        ) by {
            assert(init[a] == order[a] && init[b] == order[b]);
        }
        assert forall|i: int| 0 <= i < init.len() implies 0 <= #[trigger] init[i] < index by {
            assert(init[i] == order[i]);
        }
        lemma_with_rule(init, index, rules);
        assert forall|a: int, b: int| 0 <= a < b < out.len() implies tried_before(
            #[trigger] out[a],
            #[trigger] out[b],
            rules,
        ) by {
            if b == inner.len() {
                assert(out[a] == inner[a]);
                assert(inner.contains(inner[a]));
                if inner[a] != index {
                    assert(init.contains(inner[a]));
                    let i = choose|i: int| 0 <= i < init.len() && init[i] == inner[a];
                    assert(order[i] == inner[a]);
                    assert(tried_before(order[i], order[order.len() - 1], rules));
                }
            } else {
                assert(out[a] == inner[a] && out[b] == inner[b]);
            }
        }
        assert forall|x: int| out.contains(x) <==> order.contains(x) || x == index by {
            if out.contains(x) {
                let i = choose|i: int| 0 <= i < out.len() && out[i] == x;
                if i < inner.len() {
                    assert(inner[i] == x);
                    assert(inner.contains(x));
                    if x != index {
                        let q = choose|q: int| 0 <= q < init.len() && init[q] == x;
                        assert(order[q] == x);
                    }
                } else {
                    assert(order[order.len() - 1] == x);
                }
            }
            if x == index {
                assert(inner.contains(x));
                let i = choose|i: int| 0 <= i < inner.len() && inner[i] == x;
                assert(out[i] == x);
            }
            if order.contains(x) {
                let q = choose|q: int| 0 <= q < order.len() && order[q] == x;
                if q < init.len() {
                    assert(init[q] == x);
                    assert(init.contains(x));
                    assert(inner.contains(x));
                    let i = choose|i: int| 0 <= i < inner.len() && inner[i] == x;
                    assert(out[i] == x);
                } else {
                    assert(out[inner.len() as int] == x);
                }
            }
        }
    }
}

/// The order of trying holds the rules that hold for the file, each once,
/// those with fewer wildcards first and of two with as many wildcards the
/// one declared first.
pub proof fn lemma_evaluation_order(
    rules: Seq<AliasView>,
    resolver_cwd: Seq<char>,
    cwd: Seq<char>,
    source_file: Seq<char>,
    n: int,
)
    requires
        0 <= n <= rules.len(),
        evaluation_order(rules, resolver_cwd, cwd, source_file, n) is Ok,
    ensures
        ({
            let order = evaluation_order(rules, resolver_cwd, cwd, source_file, n)->Ok_0;
            &&& in_trying_order(order, rules)
            &&& forall|i: int| 0 <= i < order.len() ==> 0 <= #[trigger] order[i] < n
            &&& forall|i: int, j: int|
                0 <= i < j < order.len() ==> #[trigger] order[i] != #[trigger] order[j]
            &&& forall|x: int|
                0 <= x < n ==> (order.contains(x) <==> included(
                    rules[x],
                    resolver_cwd,
                    cwd,
                    source_file,
                ))
        }),
    decreases n,
{
    if n > 0 {
        lemma_evaluation_order(rules, resolver_cwd, cwd, source_file, n - 1);
        let before = evaluation_order(rules, resolver_cwd, cwd, source_file, n - 1)->Ok_0;
        let order = evaluation_order(rules, resolver_cwd, cwd, source_file, n)->Ok_0;
        if included(rules[n - 1], resolver_cwd, cwd, source_file) {
            lemma_with_rule(before, n - 1, rules);
            assert forall|i: int| 0 <= i < order.len() implies 0 <= #[trigger] order[i] < n by {
                assert(order.contains(order[i]));
                assert(with_rule(before, n - 1, rules).contains(order[i]));
                if order[i] != n - 1 {
                    assert(before.contains(order[i]));
                    let q = choose|q: int| 0 <= q < before.len() && before[q] == order[i];
                }
            }
            assert forall|x: int| 0 <= x < n implies (order.contains(x) <==> included(
                rules[x],
                resolver_cwd,
                cwd,
                source_file,
            )) by {
                assert(order.contains(x) == with_rule(before, n - 1, rules).contains(x));
                if before.contains(x) {
                    let q = choose|q: int| 0 <= q < before.len() && before[q] == x;
                }
            }
        } else {
            assert(!before.contains(n - 1)) by {
                if before.contains(n - 1) {
                    let q = choose|q: int| 0 <= q < before.len() && before[q] == n - 1;
                }
            }
        }
        assert forall|i: int, j: int| 0 <= i < j < order.len() implies #[trigger] order[i]
            != #[trigger] order[j] by {
            assert(tried_before(order[i], order[j], rules));
        }
    } else {
        let order = evaluation_order(rules, resolver_cwd, cwd, source_file, n)->Ok_0;
        assert forall|x: int| 0 <= x < n implies (order.contains(x) <==> included(
            rules[x],
            resolver_cwd,
            cwd,
            source_file,
        )) by {}
    }
}

/// The rules of `order`, each with its place in the declaration.
pub open spec fn rules_in_order(order: Seq<int>, rules: Seq<AliasView>) -> Seq<(int, AliasView)> {
    Seq::new(order.len(), |i: int| (order[i], rules[order[i]]))
}

/// The rule chosen for a specifier has the fewest wildcards among the rules
/// that hold for the file and match the specifier, and of those with as few
/// wildcards it is the one declared first.
pub proof fn lemma_chosen_alias_is_most_specific(
    rules: Seq<AliasView>,
    resolver_cwd: Seq<char>,
    cwd: Seq<char>,
    source_file: Seq<char>,
    import_path: Seq<char>,
    other: int,
)
    requires
        evaluation_order(rules, resolver_cwd, cwd, source_file, rules.len() as int) is Ok,
        0 <= other < rules.len(),
        included(rules[other], resolver_cwd, cwd, source_file),
        pattern_matches(split(rules[other].pattern, wildcard()), import_path),
    ensures
        ({
            let order = evaluation_order(
                rules,
                resolver_cwd,
                cwd,
                source_file,
                rules.len() as int,
            )->Ok_0;
            let chosen = first_match(
                rules_in_order(order, rules),
                import_path,
                order.len() as int,
            );
            &&& chosen is Some
            &&& order[chosen->Some_0] == other || tried_before(
                order[chosen->Some_0],
                other,
                rules,
            )
        }),
{
    let order = evaluation_order(rules, resolver_cwd, cwd, source_file, rules.len() as int)->Ok_0;
    let listed = rules_in_order(order, rules);
    lemma_evaluation_order(rules, resolver_cwd, cwd, source_file, rules.len() as int);
    lemma_first_match_matches(listed, import_path, order.len() as int);
    assert(order.contains(other));
    let at = choose|at: int| 0 <= at < order.len() && order[at] == other;
    assert(listed[at].1 == rules[other]);
    let chosen = first_match(listed, import_path, order.len() as int);
    assert(chosen is Some);
    if chosen->Some_0 < at {
        assert(tried_before(order[chosen->Some_0], order[at], rules));
    }
}

/// The file that an import resolves to is the first candidate that exists:
/// its place is within the templates and within the probes, the probes say
/// that it exists and that no candidate before it does, and every candidate
/// up to it has its place in the virtual file system.
pub proof fn lemma_resolved_is_first_existing(
    rule: AliasView,
    links: Seq<(Seq<char>, Seq<char>)>,
    resolver_cwd: Seq<char>,
    import_path: Seq<char>,
    probes: Seq<bool>,
    from: int,
    file: Seq<char>,
)
    requires
        0 <= from,
        resolution_from(rule, links, resolver_cwd, import_path, probes, from) == Ok::<
            ResolutionView,
            Seq<char>,
        >(ResolutionView::Resolved(file)),
    ensures
        exists|k: int|
            {
                &&& from <= k < rule.paths.len()
                &&& k < probes.len()
                &&& #[trigger] probes[k]
                &&& forall|j: int| from <= j < k ==> !probes[j]
                &&& virtual_path(
                    resolver_cwd,
                    candidate(rule, rule.paths[k], links, resolver_cwd, import_path),
                ) == Some(file)
            },
    decreases rule.paths.len() - from,
{
    let path = candidate(rule, rule.paths[from], links, resolver_cwd, import_path);
    if probes[from] {
        assert(virtual_path(resolver_cwd, path) == Some(file));
    } else {
        lemma_resolved_is_first_existing(
            rule,
            links,
            resolver_cwd,
            import_path,
            probes,
            from + 1,
            file,
        );
        let k = choose|k: int|
            {
                &&& from + 1 <= k < rule.paths.len()
                &&& k < probes.len()
                &&& #[trigger] probes[k]
                &&& forall|j: int| from + 1 <= j < k ==> !probes[j]
                &&& virtual_path(
                    resolver_cwd,
                    candidate(rule, rule.paths[k], links, resolver_cwd, import_path),
                ) == Some(file)
            };
        assert(forall|j: int| from <= j < k ==> !probes[j]);
    }
}

/// An import that a rule matches has no barrel file where every candidate
/// has its place in the virtual file system and the probes say of each that
/// it does not exist.
pub proof fn lemma_not_found_after_every_candidate(
    rule: AliasView,
    links: Seq<(Seq<char>, Seq<char>)>,
    resolver_cwd: Seq<char>,
    import_path: Seq<char>,
    probes: Seq<bool>,
    from: int,
)
    requires
        0 <= from <= rule.paths.len(),
        forall|k: int|
            from <= k < rule.paths.len() ==> k < probes.len() && !probes[k] && virtual_path(
                resolver_cwd,
                candidate(rule, #[trigger] rule.paths[k], links, resolver_cwd, import_path),
            ) is Some,
    ensures
        resolution_from(rule, links, resolver_cwd, import_path, probes, from) == Err::<
            ResolutionView,
            Seq<char>,
        >(not_found_message(import_path)),
    decreases rule.paths.len() - from,
{
    if from < rule.paths.len() {
        let path = candidate(rule, rule.paths[from], links, resolver_cwd, import_path);
        assert(!probes[from] && virtual_path(resolver_cwd, path) is Some);
        lemma_not_found_after_every_candidate(
            rule,
            links,
            resolver_cwd,
            import_path,
            probes,
            from + 1,
        );
    }
}

} // verus!
