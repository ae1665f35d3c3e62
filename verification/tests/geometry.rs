use supergrid::{CellSpan, Entity, Query};

#[test]
fn query_from_entity_drops_the_id() {
    let entity = Entity { id: 7, x: 1, y: 2, width: 3, height: 4 };
    let query = Query::from(entity);
    assert_eq!(query.x, 1);
    assert_eq!(query.y, 2);
    assert_eq!(query.width, 3);
    assert_eq!(query.height, 4);
}

#[test]
fn entity_into_query() {
    let query: Query = Entity { id: 1, x: 10, y: 20, width: 30, height: 40 }.into();
    assert_eq!((query.x, query.y, query.width, query.height), (10, 20, 30, 40));
}

#[test]
fn span_of_a_rectangle() {
    let query = Query { x: 10, y: 33, width: 40, height: 1 };
    assert_eq!(query.cell_span(4), CellSpan { sx: 0, sy: 2, ex: 3, ey: 2 });
    assert_eq!(query.cell_span(0), CellSpan { sx: 10, sy: 33, ex: 50, ey: 34 });
    assert_eq!(query.cell_span(31), CellSpan { sx: 0, sy: 0, ex: 0, ey: 0 });
}

#[test]
fn span_of_an_entity_is_that_of_its_rectangle() {
    let entity = Entity { id: 3, x: 15, y: 16, width: 1, height: 15 };
    assert_eq!(entity.cell_span(4), CellSpan { sx: 0, sy: 1, ex: 1, ey: 1 });
    assert_eq!(Query::from(entity.clone()).cell_span(4), entity.cell_span(4));
}

#[test]
fn span_is_single_where_corners_share_a_cell() {
    assert!(CellSpan { sx: 2, sy: 3, ex: 2, ey: 3 }.single());
    assert!(!CellSpan { sx: 2, sy: 3, ex: 3, ey: 3 }.single());
    assert!(!CellSpan { sx: 2, sy: 3, ex: 2, ey: 4 }.single());
    assert!(Query { x: 16, y: 16, width: 15, height: 15 }.cell_span(4).single());
    assert!(!Query { x: 16, y: 16, width: 16, height: 15 }.cell_span(4).single());
}

#[test]
fn span_at_the_end_of_the_coordinate_space() {
    let query = Query { x: u32::MAX, y: 0, width: 0, height: u32::MAX };
    assert_eq!(query.cell_span(0), CellSpan { sx: u32::MAX, sy: 0, ex: u32::MAX, ey: u32::MAX });
    assert_eq!(query.cell_span(16), CellSpan { sx: 0xffff, sy: 0, ex: 0xffff, ey: 0xffff });
}
