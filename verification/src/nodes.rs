//! Node variants: the tagged union of dialogue element kinds.

use vstd::prelude::*;
use vstd::string::StringExecFns;

use crate::node::NodeId;

verus! {

/// One beat of dialogue: either narrative text or a branching choice.
///
/// Exactly one variant tag applies to each node. Fields that do not apply to
/// a variant do not exist for it; `speaker` and `portrait` are common
/// metadata carried by both variants.
#[derive(Debug)]
pub enum DialogueNode {
    /// Node that displays text from a speaker.
    Text {
        /// Unique identifier for this node.
        id: NodeId,
        /// The text content to display.
        text: String,
        /// The name of the speaker (optional).
        speaker: Option<String>,
        /// Optional portrait or avatar identifier for the speaker.
        portrait: Option<String>,
    },
    /// Node that presents choices to the player.
    Choice {
        /// Unique identifier for this node.
        id: NodeId,
        /// Optional prompt text to display before the choices.
        prompt: Option<String>,
        /// Optional speaker for the prompt.
        speaker: Option<String>,
        /// Optional portrait or avatar identifier for the speaker.
        portrait: Option<String>,
    },
}

impl Clone for DialogueNode {
    /// The copy equals the original.
    fn clone(&self) -> (r: Self)
        ensures
            r == *self,
    {
        match self {
            DialogueNode::Text { id, text, speaker, portrait } => DialogueNode::Text {
                id: *id,
                text: text.clone(),
                speaker: crate::node::clone_opt_string(speaker),
                portrait: crate::node::clone_opt_string(portrait),
            },
            DialogueNode::Choice { id, prompt, speaker, portrait } => DialogueNode::Choice {
                id: *id,
                prompt: crate::node::clone_opt_string(prompt),
                speaker: crate::node::clone_opt_string(speaker),
                portrait: crate::node::clone_opt_string(portrait),
            },
        }
    }
}

impl DialogueNode {
    /// The id of a node, independent of its variant.
    pub open spec fn spec_id(&self) -> NodeId {
        match self {
            DialogueNode::Text { id, .. } => *id,
            DialogueNode::Choice { id, .. } => *id,
        }
    }

    /// What `display_name` returns, as a sequence of characters.
    pub open spec fn display_name_spec(&self) -> Seq<char> {
        match self {
            DialogueNode::Text { text, speaker, .. } => match speaker {
                Some(s) => s@ + ": "@ + text@,
                None => text@,
            },
            DialogueNode::Choice { prompt, speaker, .. } => match prompt {
                Some(p) => match speaker {
                    Some(s) => s@ + ": "@ + p@ + " [Choice]"@,
                    None => p@ + " [Choice]"@,
                },
                None => "Choice"@,
            },
        }
    }

    /// Creates a new text node with the given id and text.
    pub fn text(id: NodeId, text: String) -> (r: Self)
        ensures
            r == (DialogueNode::Text { id, text, speaker: None, portrait: None }),
    {
        DialogueNode::Text { id, text, speaker: None, portrait: None }
    }

    /// Creates a new choice node with the given id and no prompt.
    pub fn choice(id: NodeId) -> (r: Self)
        ensures
            r == (DialogueNode::Choice { id, prompt: None, speaker: None, portrait: None }),
    {
        DialogueNode::Choice { id, prompt: None, speaker: None, portrait: None }
    }

    /// Returns the unique id of this node.
    #[verifier::when_used_as_spec(spec_id)]
    pub fn id(&self) -> (r: NodeId)
        ensures
            r == self.spec_id(),
    {
        match self {
            DialogueNode::Text { id, .. } => *id,
            DialogueNode::Choice { id, .. } => *id,
        }
    }

    /// Sets the speaker; applies to either variant and keeps all other fields.
    pub fn set_speaker(&mut self, speaker: String)
        ensures
            *final(self) == old(self).with_speaker_spec(speaker),
    {
        match self {
            DialogueNode::Text { speaker: s, .. } => {
                *s = Some(speaker);
            },
            DialogueNode::Choice { speaker: s, .. } => {
                *s = Some(speaker);
            },
        }
    }

    /// The node with its speaker replaced, other fields unchanged.
    pub open spec fn with_speaker_spec(self, speaker: String) -> DialogueNode {
        match self {
            DialogueNode::Text { id, text, portrait, .. } => DialogueNode::Text {
                id,
                text,
                speaker: Some(speaker),
                portrait,
            },
            DialogueNode::Choice { id, prompt, portrait, .. } => DialogueNode::Choice {
                id,
                prompt,
                speaker: Some(speaker),
                portrait,
            },
        }
    }

    /// Sets the portrait; applies to either variant and keeps all other fields.
    pub fn set_portrait(&mut self, portrait: String)
        ensures
            *final(self) == old(self).with_portrait_spec(portrait),
    {
        match self {
            DialogueNode::Text { portrait: p, .. } => {
                *p = Some(portrait);
            },
            DialogueNode::Choice { portrait: p, .. } => {
                *p = Some(portrait);
            },
        }
    }

    /// The node with its portrait replaced, other fields unchanged.
    pub open spec fn with_portrait_spec(self, portrait: String) -> DialogueNode {
        match self {
            DialogueNode::Text { id, text, speaker, .. } => DialogueNode::Text {
                id,
                text,
                speaker,
                portrait: Some(portrait),
            },
            DialogueNode::Choice { id, prompt, speaker, .. } => DialogueNode::Choice {
                id,
                prompt,
                speaker,
                portrait: Some(portrait),
            },
        }
    }

    /// Sets the text content of a text node.
    ///
    /// Calling this on a choice node is a usage error (wrong variant) and
    /// fails without changing the node.
    pub fn set_text(&mut self, text: String) -> (r: Result<(), &'static str>)
        ensures
            r is Ok <==> *old(self) is Text,
            *old(self) matches DialogueNode::Text { id, speaker, portrait, .. } ==> *final(self)
                == (DialogueNode::Text { id, text, speaker, portrait }),
            *old(self) is Choice ==> *final(self) == *old(self) && (r matches Err(m) && m@
                == "Can only set text on a Text node"@),
    {
        match self {
            DialogueNode::Text { text: t, .. } => {
                *t = text;
                Ok(())
            },
            _ => Err("Can only set text on a Text node"),
        }
    }

    /// Sets the prompt of a choice node.
    ///
    /// Calling this on a text node is a usage error (wrong variant) and fails
    /// without changing the node.
    pub fn set_prompt(&mut self, prompt: String) -> (r: Result<(), &'static str>)
        ensures
            r is Ok <==> *old(self) is Choice,
            *old(self) matches DialogueNode::Choice { id, speaker, portrait, .. } ==> *final(self)
                == (DialogueNode::Choice { id, prompt: Some(prompt), speaker, portrait }),
            *old(self) is Text ==> *final(self) == *old(self) && (r matches Err(m) && m@
                == "Can only set prompt on a Choice node"@),
    {
        match self {
            DialogueNode::Choice { prompt: p, .. } => {
                *p = Some(prompt);
                Ok(())
            },
            _ => Err("Can only set prompt on a Choice node"),
        }
    }

    /// Builder form of `set_speaker`.
    pub fn with_speaker(self, speaker: String) -> (r: Self)
        ensures
            r == self.with_speaker_spec(speaker),
    {
        let mut node = self;
        node.set_speaker(speaker);
        node
    }

    /// Builder form of `set_portrait`.
    pub fn with_portrait(self, portrait: String) -> (r: Self)
        ensures
            r == self.with_portrait_spec(portrait),
    {
        let mut node = self;
        node.set_portrait(portrait);
        node
    }

    /// Builder form of `set_prompt`; fails on a text node.
    pub fn with_prompt(self, prompt: String) -> (r: Result<Self, &'static str>)
        ensures
            r is Ok <==> self is Choice,
            self matches DialogueNode::Choice { id, speaker, portrait, .. } ==> r
                == Result::<Self, &'static str>::Ok(
                DialogueNode::Choice { id, prompt: Some(prompt), speaker, portrait },
            ),
            self is Text ==> (r matches Err(m) && m@ == "Can only set prompt on a Choice node"@),
    {
        let mut node = self;
        match node.set_prompt(prompt) {
            Ok(()) => Ok(node),
            Err(e) => Err(e),
        }
    }

    /// A rendering-friendly one-line summary of this node.
    ///
    /// Text nodes read "Speaker: text" (or just the text without a speaker);
    /// choice nodes read "Speaker: prompt [Choice]", falling back to
    /// "Choice" when there is no prompt.
    pub fn display_name(&self) -> (r: String)
        ensures
            r@ == self.display_name_spec(),
    {
        match self {
            DialogueNode::Text { text, speaker, .. } => match speaker {
                Some(s) => {
                    let r = s.clone().concat(": ").concat(text.as_str());
                    assert(r@ =~= self.display_name_spec());
                    r
                },
                None => text.clone(),
            },
            DialogueNode::Choice { prompt, speaker, .. } => match prompt {
                Some(p) => match speaker {
                    Some(s) => {
                        let r = s.clone().concat(": ").concat(p.as_str()).concat(" [Choice]");
                        assert(r@ =~= self.display_name_spec());
                        r
                    },
                    None => {
                        let r = p.clone().concat(" [Choice]");
                        assert(r@ =~= self.display_name_spec());
                        r
                    },
                },
                None => String::from_str("Choice"),
            },
        }
    }
}

} // verus!
