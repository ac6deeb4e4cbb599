use ball_merge::balls::load_ball_templates;
use ball_merge::balls::templates::{
    ball_template, default_color, BallTemplate, Part, Rgb, SPHERE_ROUGHNESS, SPHERE_TRANSMISSION,
    TEMPLATE_COUNT,
};

fn part(mesh: u8, primitive: u8, material: u8) -> Part {
    Part { mesh, primitive, material }
}

#[test]
fn small_ranks_are_plain_spheres() {
    assert_eq!(
        ball_template(0),
        BallTemplate::Procedural { color: Rgb { r: 1000, g: 500, b: 1000 }, radius: 95, sectors: 24 }
    );
    assert_eq!(
        ball_template(1),
        BallTemplate::Procedural { color: Rgb { r: 1000, g: 450, b: 300 }, radius: 380, sectors: 27 }
    );
    assert_eq!(SPHERE_ROUGHNESS, 670);
    assert_eq!(SPHERE_TRANSMISSION, 500);
}

#[test]
fn larger_ranks_have_models() {
    assert_eq!(
        ball_template(2),
        BallTemplate::Textured { file: "Golf.glb", scale: 3100, parts: vec![part(0, 0, 0)] }
    );
    assert_eq!(
        ball_template(3),
        BallTemplate::Textured {
            file: "Pool.glb",
            scale: 9500,
            parts: vec![part(0, 0, 0), part(0, 1, 1), part(1, 0, 2), part(2, 0, 3)],
        }
    );
    assert_eq!(
        ball_template(4),
        BallTemplate::Textured {
            file: "Tennis.glb",
            scale: 106,
            parts: vec![part(0, 0, 0), part(1, 0, 1)],
        }
    );
    assert_eq!(
        ball_template(5),
        BallTemplate::Textured {
            file: "Baseball.glb",
            scale: 4000,
            parts: vec![part(0, 0, 0), part(0, 1, 1), part(0, 2, 2)],
        }
    );
    assert_eq!(
        ball_template(6),
        BallTemplate::Textured { file: "Bowling.glb", scale: 68500, parts: vec![part(0, 0, 0)] }
    );
    assert_eq!(
        ball_template(7),
        BallTemplate::Textured {
            file: "Soccer.glb",
            scale: 21600,
            parts: vec![part(0, 0, 0), part(0, 1, 1)],
        }
    );
    assert_eq!(
        ball_template(8),
        BallTemplate::Textured {
            file: "Basketball.glb",
            scale: 47000,
            parts: vec![part(0, 0, 0), part(1, 0, 1)],
        }
    );
    assert_eq!(
        ball_template(9),
        BallTemplate::Textured {
            file: "Beach_ball.glb",
            scale: 26500,
            parts: vec![part(0, 0, 0), part(1, 0, 1), part(2, 0, 2), part(3, 0, 3)],
        }
    );
}

#[test]
fn ranks_above_nine_look_like_rank_nine() {
    assert_eq!(ball_template(10), ball_template(9));
    assert_eq!(ball_template(255), ball_template(9));
    assert_eq!(default_color(200), default_color(9));
}

#[test]
fn every_rank_has_its_colour() {
    assert_eq!(default_color(2), Rgb { r: 900, g: 900, b: 900 });
    assert_eq!(default_color(3), Rgb { r: 0, g: 0, b: 400 });
    assert_eq!(default_color(4), Rgb { r: 369, g: 624, b: 0 });
    assert_eq!(default_color(5), Rgb { r: 1000, g: 1000, b: 1000 });
    assert_eq!(default_color(6), Rgb { r: 800, g: 800, b: 800 });
    assert_eq!(default_color(7), Rgb { r: 612, g: 145, b: 36 });
    assert_eq!(default_color(8), Rgb { r: 1000, g: 1000, b: 1000 });
    assert_eq!(default_color(9), Rgb { r: 1000, g: 0, b: 1000 });
}

#[test]
fn table_holds_the_looks_of_ten_ranks() {
    let templates = load_ball_templates();
    assert_eq!(templates.len(), TEMPLATE_COUNT as usize);
    for (rank, template) in templates.iter().enumerate() {
        assert_eq!(*template, ball_template(rank as u8));
    }
}
