use vstd::prelude::*;

verus! {

/// A colour by its red, green and blue channels.
#[derive(Clone, Copy, Debug, PartialEq, Eq, Structural)]
pub struct Rgb {
    pub r: u8,
    pub g: u8,
    pub b: u8,
}

pub open spec fn rgb(r: u8, g: u8, b: u8) -> Rgb {
    Rgb { r, g, b }
}

/// The application's palette.
#[derive(Default)]
pub struct Theme;

/// How a container is drawn.
#[derive(Clone, Copy, Debug, PartialEq, Eq, Structural, Default)]
pub enum Container {
    #[default]
    Default,
    Cred,
    InfoToast,
    SuccessToast,
    DangerToast,
}

/// How a text is drawn.
#[derive(Clone, Copy, Debug, PartialEq, Eq, Structural, Default)]
pub enum Text {
    Title,
    #[default]
    Default,
    Black,
    Gray,
    Light,
}

/// How a button is drawn.
#[derive(Clone, Copy, Debug, PartialEq, Eq, Structural, Default)]
pub enum Button {
    #[default]
    Default,
    Distinct,
    Cred,
    Delete,
    Edit,
    Toast,
}

pub open spec fn primary() -> Rgb {
    rgb(48, 56, 65)
}

pub open spec fn secondary() -> Rgb {
    rgb(246, 201, 14)
}

pub open spec fn black() -> Rgb {
    rgb(0, 0, 0)
}

impl Theme {
    fn new_rgb(r: u8, g: u8, b: u8) -> (c: Rgb)
        ensures
            c == rgb(r, g, b),
    {
        Rgb { r, g, b }
    }

    /// The window's background.
    pub fn background(&self) -> (c: Rgb)
        ensures
            c == primary(),
    {
        Theme::new_rgb(48, 56, 65)
    }

    /// The background of a container of the given style; none for the default.
    pub fn container_background(&self, style: Container) -> (c: Option<Rgb>)
        ensures
            c == match style {
                Container::Default => None,
                Container::Cred => Some(rgb(68, 93, 72)),
                Container::InfoToast => Some(secondary()),
                Container::SuccessToast => Some(rgb(20, 184, 64)),
                Container::DangerToast => Some(rgb(224, 29, 29)),
            },
    {
        match style {
            Container::Default => None,
            Container::Cred => Some(Theme::new_rgb(68, 93, 72)),
            Container::InfoToast => Some(Theme::new_rgb(246, 201, 14)),
            Container::SuccessToast => Some(Theme::new_rgb(20, 184, 64)),
            Container::DangerToast => Some(Theme::new_rgb(224, 29, 29)),
        }
    }

    /// The colour of a text of the given style.
    pub fn text_color(&self, style: Text) -> (c: Rgb)
        ensures
            c == match style {
                Text::Title => secondary(),
                Text::Default => primary(),
                Text::Black => black(),
                Text::Gray => rgb(202, 207, 203),
                Text::Light => rgb(245, 245, 220),
            },
    {
        match style {
            Text::Title => Theme::new_rgb(246, 201, 14),
            Text::Default => Theme::new_rgb(48, 56, 65),
            Text::Black => Theme::new_rgb(0, 0, 0),
            Text::Gray => Theme::new_rgb(202, 207, 203),
            Text::Light => Theme::new_rgb(245, 245, 220),
        }
    }

    /// The background of an idle button of the given style; none for the
    /// borderless ones.
    pub fn button_background(&self, style: Button) -> (c: Option<Rgb>)
        ensures
            c == match style {
                Button::Distinct => Some(rgb(224, 29, 29)),
                Button::Cred | Button::Toast => None,
                _ => Some(secondary()),
            },
    {
        match style {
            Button::Distinct => Some(Theme::new_rgb(224, 29, 29)),
            Button::Cred | Button::Toast => None,
            _ => Some(Theme::new_rgb(246, 201, 14)),
        }
    }
}

} // verus!
