//! How the kernel reaches a model.

use crate::context;
use crate::context::{ContextEntry, EntryModel};
use crate::inference;
use crate::inference::{InferenceBackend, MockBackend, OwnBackend, Says, TurnModel, UserInput};
use crate::text;
use crate::text::Text;
use vstd::prelude::*;

verus! {

/// Where answers come from: from the model that ships for running without any,
/// from a backend of one's own, or from a service that is reached from outside.
/// Where a plugin does the inference there is none.
pub(crate) enum Source {
    Mock(MockBackend),
    Own(OwnBackend),
    Remote,
    Absent,
}

/// A question to the model, and what it said.
pub struct Question {
    pub system: Text,
    pub context: Seq<EntryModel>,
    pub input: TurnModel,
    pub result: Result<Text, Text>,
}

/// A model, with the record of what it was asked. Only `ask` asks, and only it
/// adds to the record.
pub(crate) struct Mind {
    source: Source,
    asked: Ghost<Seq<Question>>,
}

/// What a source may say.
closed spec fn said(source: Source) -> Says {
    |s: Text, c: Seq<EntryModel>, i: TurnModel, r: Result<Text, Text>|
        match source {
            Source::Mock(b) => b.answers(s, c, i, r),
            Source::Own(b) => (b.says())(s, c, i, r),
            Source::Remote => false,
            Source::Absent => r == Err::<Text, Text>("no inference backend"@),
        }
}

/// What is said where nothing can be asked.
pub open spec fn silence() -> Says {
    |s: Text, c: Seq<EntryModel>, i: TurnModel, r: Result<Text, Text>| false
}

/// What is said where a plugin does the inference.
pub open spec fn absence() -> Says {
    |s: Text, c: Seq<EntryModel>, i: TurnModel, r: Result<Text, Text>|
        r == Err::<Text, Text>("no inference backend"@)
}

impl Mind {
    /// What the model may say.
    pub(crate) closed spec fn answers(&self) -> Says {
        said(self.source)
    }

    /// What it was asked so far.
    pub(crate) closed spec fn asked(&self) -> Seq<Question> {
        self.asked@
    }

    /// The model is reached from outside.
    pub(crate) closed spec fn remote(&self) -> bool {
        self.source is Remote
    }

    fn of(source: Source) -> (r: Self)
        ensures
            r.answers() == said(source),
            r.asked() == Seq::<Question>::empty(),
            r.remote() == (source is Remote),
    {
        let ghost none = Seq::<Question>::empty();
        Mind { source, asked: Ghost(none) }
    }

    /// The model that ships for running without any.
    pub(crate) fn mock() -> (r: Self)
        ensures
            r.answers() == inference::mock_answers(),
            r.asked() == Seq::<Question>::empty(),
            !r.remote(),
    {
        let r = Mind::of(Source::Mock(MockBackend));
        assert(r.answers() =~= inference::mock_answers());
        r
    }

    /// A backend of one's own.
    pub(crate) fn own(backend: OwnBackend) -> (r: Self)
        ensures
            r.answers() == backend.says(),
            r.asked() == Seq::<Question>::empty(),
            !r.remote(),
    {
        let r = Mind::of(Source::Own(backend));
        assert(r.answers() =~= backend.says());
        r
    }

    /// A model that is reached from outside.
    pub(crate) fn elsewhere() -> (r: Self)
        ensures
            r.answers() == silence(),
            r.asked() == Seq::<Question>::empty(),
            r.remote(),
    {
        let r = Mind::of(Source::Remote);
        assert(r.answers() =~= silence());
        r
    }

    /// No model at all.
    pub(crate) fn absent() -> (r: Self)
        ensures
            r.answers() == absence(),
            r.asked() == Seq::<Question>::empty(),
            !r.remote(),
    {
        let r = Mind::of(Source::Absent);
        assert(r.answers() =~= absence());
        r
    }

    /// Whether the model is reached from outside.
    pub(crate) fn is_remote(&self) -> (r: bool)
        ensures
            r == self.remote(),
    {
        match self.source {
            Source::Remote => true,
            _ => false,
        }
    }

    /// Asks the model.
    pub(crate) fn ask(
        &mut self,
        system: &str,
        context: &[ContextEntry],
        input: &UserInput,
    ) -> (r: Result<String, String>)
        requires
            !old(self).remote(),
        ensures
            (old(self).answers())(
                system@,
                context::entries(context@),
                input@,
                text::text_result(r),
            ),
            final(self).answers() == old(self).answers(),
            final(self).remote() == old(self).remote(),
            final(self).asked() == old(self).asked().push(
                Question {
                    system: system@,
                    context: context::entries(context@),
                    input: input@,
                    result: text::text_result(r),
                },
            ),
    {
        let r = match &mut self.source {
            Source::Mock(b) => b.generate(system, context, input),
            Source::Own(b) => b.generate(system, context, input),
            _ => Err("no inference backend".to_string()),
        };
        assert(self.answers() =~= old(self).answers());
        let ghost question = Question {
            system: system@,
            context: context::entries(context@),
            input: input@,
            result: text::text_result(r),
        };
        self.asked = Ghost(self.asked@.push(question));
        r
    }
}

} // verus!
