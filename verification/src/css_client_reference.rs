//! CSS client references: the module rule that sends internal CSS through
//! the client transition, and the module type that rule installs.
use vstd::prelude::*;

verus! {

/// The kinds of CSS reference that this library speaks of.
#[derive(Debug, Clone, Copy, PartialEq, Eq, Structural)]
pub enum CssReferenceSubType {
    /// A reference made by the bundler itself.
    Internal,
}

/// The reference types that this library speaks of.
#[derive(Debug, Clone, Copy, PartialEq, Eq, Structural)]
pub enum ReferenceType {
    /// A reference to a CSS source.
    Css(CssReferenceSubType),
}

/// A condition under which a module rule applies.
pub enum ModuleRuleCondition {
    /// All of the conditions hold.
    All(Vec<ModuleRuleCondition>),
    /// At least one of the conditions holds.
    Any(Vec<ModuleRuleCondition>),
    /// The module is referenced with this reference type.
    ReferenceType(ReferenceType),
    /// The module's path ends with this suffix.
    ResourcePathEndsWith(String),
}

/// A rule condition, with its strings as characters.
pub enum ModuleRuleConditionView {
    All(Seq<ModuleRuleConditionView>),
    Any(Seq<ModuleRuleConditionView>),
    ReferenceType(ReferenceType),
    ResourcePathEndsWith(Seq<char>),
}

/// The view of a rule condition.
pub open spec fn condition_view(c: ModuleRuleCondition) -> ModuleRuleConditionView
    decreases c,
{
    match c {
        ModuleRuleCondition::All(all) => ModuleRuleConditionView::All(
            Seq::new(
                all@.len(),
                |i: int|
                    if 0 <= i < all@.len() {
                        condition_view(all@[i])
                    } else {
                        ModuleRuleConditionView::All(Seq::empty())
                    },
            ),
        ),
        ModuleRuleCondition::Any(any) => ModuleRuleConditionView::Any(
            Seq::new(
                any@.len(),
                |i: int|
                    if 0 <= i < any@.len() {
                        condition_view(any@[i])
                    } else {
                        ModuleRuleConditionView::Any(Seq::empty())
                    },
            ),
        ),
        ModuleRuleCondition::ReferenceType(r) => ModuleRuleConditionView::ReferenceType(r),
        ModuleRuleCondition::ResourcePathEndsWith(suffix) => ModuleRuleConditionView::ResourcePathEndsWith(
            suffix@,
        ),
    }
}

impl View for ModuleRuleCondition {
    type V = ModuleRuleConditionView;

    open spec fn view(&self) -> ModuleRuleConditionView {
        condition_view(*self)
    }
}

/// A module type that a rule can impose.
pub enum ModuleType<M> {
    /// A module type of the project's own.
    Custom(M),
}

/// What a module rule does to the modules it applies to.
pub enum ModuleRuleEffect<M> {
    /// Gives them this module type.
    ModuleType(ModuleType<M>),
}

/// A module rule: effects, and the condition under which they apply.
pub struct ModuleRule<M> {
    pub condition: ModuleRuleCondition,
    pub effects: Vec<ModuleRuleEffect<M>>,
}

/// A module rule, with its condition and its module types by their views.
pub struct ModuleRuleView<V> {
    pub condition: ModuleRuleConditionView,
    pub effects: Seq<ModuleRuleEffect<V>>,
}

/// The view of a module rule effect.
pub open spec fn effect_view<M: View>(e: ModuleRuleEffect<M>) -> ModuleRuleEffect<M::V> {
    match e {
        ModuleRuleEffect::ModuleType(ModuleType::Custom(m)) => ModuleRuleEffect::ModuleType(
            ModuleType::Custom(m@),
        ),
    }
}

impl<M: View> View for ModuleRule<M> {
    type V = ModuleRuleView<M::V>;

    open spec fn view(&self) -> ModuleRuleView<M::V> {
        ModuleRuleView {
            condition: self.condition@,
            effects: self.effects@.map_values(|e: ModuleRuleEffect<M>| effect_view(e)),
        }
    }
}

/// The module type of CSS client references: it processes a CSS source
/// through the client transition and wraps the CSS module that comes out.
pub struct CssClientReferenceModuleType<T> {
    client_transition: T,
}

impl<T> View for CssClientReferenceModuleType<T> {
    type V = T;

    /// The transition through which sources are processed.
    closed spec fn view(&self) -> T {
        self.client_transition
    }
}

/// A handle to a CSS client reference module type, by which the build
/// passes it around.
pub type CssClientReferenceModuleTypeVc<T> = CssClientReferenceModuleType<T>;

/// The module that a CSS client reference becomes.
pub struct CssClientReferenceAsset<A> {
    /// The CSS module that the client transition made of the source.
    pub client_module: A,
}

/// Why a CSS client reference module could not be made.
#[derive(Debug, Clone, Copy, PartialEq, Eq)]
pub enum CssClientReferenceError {
    /// What the client transition made of the source cannot be placed in a
    /// CSS chunk.
    NotCssChunkPlaceable,
}

impl CssClientReferenceError {
    /// The error's message.
    pub fn message(&self) -> (m: String)
        ensures
            m@ == "client asset is not CSS chunk placeable"@,
    {
        match self {
            CssClientReferenceError::NotCssChunkPlaceable => String::from_str(
                "client asset is not CSS chunk placeable",
            ),
        }
    }
}

/// The reference type under which CSS client references are processed and
/// matched: an internal CSS reference.
pub open spec fn css_internal_reference() -> ReferenceType {
    ReferenceType::Css(CssReferenceSubType::Internal)
}

impl<T: Copy> CssClientReferenceModuleTypeVc<T> {
    /// The module type that processes sources through `client_transition`.
    pub fn new(client_transition: T) -> (m: Self)
        ensures
            m.transition() == client_transition,
    {
        CssClientReferenceModuleType { client_transition }
    }
}

impl<T: Copy> CssClientReferenceModuleType<T> {
    /// The transition through which sources are processed.
    pub closed spec fn transition(self) -> T {
        self.client_transition
    }

    /// The transition through which sources are processed.
    pub fn client_transition(&self) -> (t: T)
        ensures
            t == self.transition(),
    {
        self.client_transition
    }

    /// The reference type with which a source is handed to the client
    /// transition.
    pub fn process_reference_type(&self) -> (r: ReferenceType)
        ensures
            r == css_internal_reference(),
    {
        ReferenceType::Css(CssReferenceSubType::Internal)
    }

    /// The module of a CSS client reference, given what the client
    /// transition made of its source, resolved as a CSS chunk item:
    /// `None` where that cannot be placed in a CSS chunk, which is an error.
    pub fn create_module<A>(&self, client_module: Option<A>) -> (r: Result<
        CssClientReferenceAsset<A>,
        CssClientReferenceError,
    >)
        ensures
            match client_module {
                Some(m) => r matches Ok(asset) && asset.client_module == m,
                None => r == Err::<CssClientReferenceAsset<A>, _>(
                    CssClientReferenceError::NotCssChunkPlaceable,
                ),
            },
    {
        match client_module {
            Some(client_module) => Ok(CssClientReferenceAsset { client_module }),
            None => Err(CssClientReferenceError::NotCssChunkPlaceable),
        }
    }
}

/// `rule` sends every internal CSS reference to a `.css` path through the CSS
/// client reference module type with `client_transition`.
pub open spec fn is_css_client_reference_rule<T: Copy>(
    rule: ModuleRule<CssClientReferenceModuleType<T>>,
    client_transition: T,
) -> bool {
    &&& rule.condition matches ModuleRuleCondition::All(all)
    &&& all@.len() == 2
    &&& all@[0] == ModuleRuleCondition::ReferenceType(css_internal_reference())
    &&& all@[1] matches ModuleRuleCondition::Any(any)
    &&& any@.len() == 1
    &&& any@[0] matches ModuleRuleCondition::ResourcePathEndsWith(suffix)
    &&& suffix@ == ".css"@
    &&& rule.effects@.len() == 1
    &&& rule.effects@[0] matches ModuleRuleEffect::ModuleType(ModuleType::Custom(m))
    &&& m.transition() == client_transition
}

/// The rule for CSS client references with `client_transition`, by its view.
pub open spec fn css_client_reference_rule_view<T>(client_transition: T) -> ModuleRuleView<T> {
    ModuleRuleView {
        condition: ModuleRuleConditionView::All(
            seq![
                ModuleRuleConditionView::ReferenceType(css_internal_reference()),
                ModuleRuleConditionView::Any(
                    seq![ModuleRuleConditionView::ResourcePathEndsWith(".css"@)],
                ),
            ],
        ),
        effects: seq![ModuleRuleEffect::ModuleType(ModuleType::Custom(client_transition))],
    }
}

/// The module rule that overrides the default module type of CSS assets:
/// internal CSS references to `.css` paths go through the CSS client
/// reference module type, which chunks them through the client transition.
pub fn get_next_css_client_reference_transforms_rule<T: Copy>(client_transition: T) -> (rule:
    ModuleRule<CssClientReferenceModuleType<T>>)
    ensures
        is_css_client_reference_rule(rule, client_transition),
        rule@ == css_client_reference_rule_view(client_transition),
{
    let module_type = CssClientReferenceModuleTypeVc::new(client_transition);
    let mut any: Vec<ModuleRuleCondition> = Vec::new();
    any.push(ModuleRuleCondition::ResourcePathEndsWith(String::from_str(".css")));
    let ghost any_items = any@;
    let any_condition = ModuleRuleCondition::Any(any);
    let ghost any_view = ModuleRuleConditionView::Any(
        seq![ModuleRuleConditionView::ResourcePathEndsWith(".css"@)],
    );
    proof {
        assert(condition_view(any_items[0]) == ModuleRuleConditionView::ResourcePathEndsWith(
            ".css"@,
        ));
        assert(condition_view(any_condition) matches ModuleRuleConditionView::Any(v) && v
            =~= seq![ModuleRuleConditionView::ResourcePathEndsWith(".css"@)]);
        assert(condition_view(any_condition) == any_view);
    }
    let mut all: Vec<ModuleRuleCondition> = Vec::new();
    all.push(
        ModuleRuleCondition::ReferenceType(ReferenceType::Css(CssReferenceSubType::Internal)),
    );
    all.push(any_condition);
    let ghost all_items = all@;
    let condition = ModuleRuleCondition::All(all);
    proof {
        assert(condition_view(all_items[0]) == ModuleRuleConditionView::ReferenceType(
            css_internal_reference(),
        ));
        assert(condition_view(all_items[1]) == any_view);
        assert(condition_view(condition) matches ModuleRuleConditionView::All(v) && v =~= seq![
            ModuleRuleConditionView::ReferenceType(css_internal_reference()),
            any_view,
        ]);
    }
    let mut effects: Vec<ModuleRuleEffect<CssClientReferenceModuleType<T>>> = Vec::new();
    effects.push(ModuleRuleEffect::ModuleType(ModuleType::Custom(module_type)));
    let rule = ModuleRule { condition, effects };
    proof {
        let expected = css_client_reference_rule_view(client_transition);
        assert(rule@.condition == expected.condition);
        assert(rule@.effects =~= expected.effects);
    }
    rule
}


/// The CSS client reference rule depends on nothing but the client
/// transition: two calls with the same transition give the same rule.
pub proof fn lemma_css_rule_is_determined<T>(
    a: T,
    b: T,
    rule_a: ModuleRuleView<T>,
    rule_b: ModuleRuleView<T>,
)
    requires
        a == b,
        rule_a == css_client_reference_rule_view(a),
        rule_b == css_client_reference_rule_view(b),
    ensures
        rule_a == rule_b,
{
}

} // verus!
