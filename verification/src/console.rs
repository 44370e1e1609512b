use vstd::prelude::*;


verus! {

/// How a piece of console text is shown.
#[derive(Clone, Copy, Debug, PartialEq, Eq, Structural)]
pub enum Tone {
    Plain,
    Bold,
    Red,
    RedBold,
    Green,
    GreenBold,
    Yellow,
    Cyan,
    CyanBold,
    YellowBold,
    Dimmed,
}

/// The values of console pieces.
pub open spec fn pieces_view(v: Seq<(String, Tone)>) -> Seq<(Seq<char>, Tone)> {
    v.map_values(|p: (String, Tone)| (p.0@, p.1))
}

/// Console text being put together, piece by piece.
pub struct Console {
    pub pieces: Vec<(String, Tone)>,
}

impl View for Console {
    type V = Seq<(Seq<char>, Tone)>;

    open spec fn view(&self) -> Seq<(Seq<char>, Tone)> {
        pieces_view(self.pieces@)
    }
}

impl Console {
    pub fn new() -> (c: Self)
        ensures
            c@ == Seq::<(Seq<char>, Tone)>::empty(),
    {
        let c = Console { pieces: Vec::new() };
        assert(c@ =~= Seq::<(Seq<char>, Tone)>::empty());
        c
    }

    /// Add a piece.
    pub fn put(&mut self, text: String, tone: Tone)
        ensures
            final(self)@ == old(self)@.push((text@, tone)),
    {
        self.pieces.push((text, tone));
        assert(pieces_view(self.pieces@) =~= pieces_view(old(self).pieces@).push((text@, tone)));
    }

    /// Add a piece of plain text.
    pub fn text(&mut self, text: &str)
        ensures
            final(self)@ == old(self)@.push((text@, Tone::Plain)),
    {
        self.put(String::from_str(text), Tone::Plain);
    }

    /// Add another console's pieces.
    pub fn append(&mut self, other: Console)
        ensures
            final(self)@ == old(self)@ + other@,
    {
        let mut other = other;
        let ghost before = self.pieces@;
        let ghost theirs = other.pieces@;
        self.pieces.append(&mut other.pieces);
        assert(pieces_view(self.pieces@) =~= pieces_view(before) + pieces_view(theirs));
    }
}

} // verus!
